//! The send task's state machine.
//!
//! A send imports the chosen files into the content-addressed store,
//! assembles them into a collection sorted by name, publishes a ticket,
//! and then serves incoming requests, aggregating per-blob progress into
//! `Progress` events until every blob (the files plus the collection
//! metadata) has been sent or the connection closes after a client had
//! connected. The runtime walks directories, talks to the store and the
//! network, and feeds the outcomes into these steps. Each step emits at
//! most one terminal event, exactly when the task reaches its final phase.

use vstd::prelude::*;

use vstd::multiset::Multiset;

use crate::events::TransferProgress;
use crate::speed::{drop_stale, speed_of, SpeedTracker};
use crate::text::{chars_of, decimal_of, push_chars, push_decimal, split_at_seps, split_char,
    string_from_chars};

verus! {

/// Options for a send.
#[derive(Debug, Clone, Default)]
pub struct SendOptions {
    /// Whether the walk follows symbolic links; off by default.
    pub follow_symlinks: bool,
}

/// One imported file, ready to enter a collection. The `tag` ties the
/// entry back to the runtime's store handle for its content.
#[derive(Debug)]
pub struct ImportedFile {
    /// The transfer name, forward-slash separated.
    pub name: String,
    /// The file's size in bytes.
    pub size: u64,
    /// The runtime's index for the imported content.
    pub tag: usize,
}

/// Lexicographic order on names, by code point.
pub open spec fn lex_le(a: Seq<char>, b: Seq<char>) -> bool
    decreases a.len(),
{
    if a.len() == 0 {
        true
    } else if b.len() == 0 {
        false
    } else if (a[0] as u32) < (b[0] as u32) {
        true
    } else if (a[0] as u32) > (b[0] as u32) {
        false
    } else {
        lex_le(a.drop_first(), b.drop_first())
    }
}

/// Any two names compare one way or the other.
pub proof fn lemma_lex_total(a: Seq<char>, b: Seq<char>)
    ensures
        lex_le(a, b) || lex_le(b, a),
    decreases a.len(),
{
    if a.len() > 0 && b.len() > 0 && a[0] as u32 == b[0] as u32 {
        lemma_lex_total(a.drop_first(), b.drop_first());
    }
}

/// The order is transitive.
pub proof fn lemma_lex_trans(a: Seq<char>, b: Seq<char>, c: Seq<char>)
    requires
        lex_le(a, b),
        lex_le(b, c),
    ensures
        lex_le(a, c),
    decreases a.len(),
{
    if a.len() > 0 && b.len() > 0 && c.len() > 0 && a[0] as u32 == b[0] as u32 && b[0] as u32 == c[
        0] as u32 {
        lemma_lex_trans(a.drop_first(), b.drop_first(), c.drop_first());
    }
}

/// Whether `a` sorts at or before `b`, by code point.
pub fn name_le(a: &String, b: &String) -> (r: bool)
    ensures
        r == lex_le(a@, b@),
{
    let av = chars_of(a.as_str());
    let bv = chars_of(b.as_str());
    let mut i: usize = 0;
    proof {
        assert(a@.skip(0) =~= a@);
        assert(b@.skip(0) =~= b@);
    }
    loop
        invariant
            0 <= i <= av@.len(),
            i <= bv@.len(),
            av@ == a@,
            bv@ == b@,
            lex_le(a@, b@) == lex_le(a@.skip(i as int), b@.skip(i as int)),
        decreases av@.len() - i,
    {
        if i >= av.len() {
            proof {
                assert(a@.skip(i as int).len() == 0);
            }
            return true;
        }
        if i >= bv.len() {
            proof {
                assert(b@.skip(i as int).len() == 0);
                assert(a@.skip(i as int).len() > 0);
            }
            return false;
        }
        let ca = av[i] as u32;
        let cb = bv[i] as u32;
        proof {
            assert(a@.skip(i as int)[0] == a@[i as int]);
            assert(b@.skip(i as int)[0] == b@[i as int]);
            assert(a@.skip(i as int).drop_first() =~= a@.skip(i as int + 1));
            assert(b@.skip(i as int).drop_first() =~= b@.skip(i as int + 1));
        }
        if ca < cb {
            return true;
        }
        if ca > cb {
            return false;
        }
        i = i + 1;
    }
}

/// Entries in nondecreasing name order.
pub open spec fn sorted_by_name(s: Seq<ImportedFile>) -> bool {
    forall|i: int, j: int|
        0 <= i <= j < s.len() ==> lex_le((#[trigger] s[i]).name@, (#[trigger] s[j]).name@)
}

/// The sizes of a list of entries, summed and saturated at `u64::MAX`.
pub open spec fn total_size_of(s: Seq<ImportedFile>) -> int {
    let total = sum_sizes(s);
    if total > u64::MAX {
        u64::MAX as int
    } else {
        total
    }
}

/// The unbounded sum of entry sizes.
pub open spec fn sum_sizes(s: Seq<ImportedFile>) -> int
    decreases s.len(),
{
    if s.len() == 0 {
        0
    } else {
        sum_sizes(s.drop_last()) + s.last().size
    }
}

/// Sorts imported files by name and sums their sizes: the collection's
/// canonical order, which fixes the transfer order for the receiver. The
/// sorted entries hold exactly the given files, and the total is the sum
/// of their sizes, saturated.
pub fn assemble_collection(files: Vec<ImportedFile>) -> (r: (Vec<ImportedFile>, u64))
    ensures
        sorted_by_name(r.0@),
        r.0@.to_multiset() == files@.to_multiset(),
        r.1 == total_size_of(r.0@),
{
    broadcast use vstd::seq_lib::group_to_multiset_ensures;

    let mut input = files;
    let mut out: Vec<ImportedFile> = Vec::new();
    let ghost orig = input@;
    proof {
        assert(out@.to_multiset().add(input@.to_multiset()) =~= orig.to_multiset());
    }
    while input.len() > 0
        invariant
            sorted_by_name(out@),
            out@.to_multiset().add(input@.to_multiset()) == orig.to_multiset(),
            forall|i: int, j: int|
                0 <= i < out@.len() && 0 <= j < input@.len() ==> lex_le(
                    (#[trigger] out@[i]).name@,
                    (#[trigger] input@[j]).name@,
                ),
        decreases input@.len(),
    {
        let mut m: usize = 0;
        let mut k: usize = 1;
        proof {
            lemma_lex_total(input@[0].name@, input@[0].name@);
        }
        while k < input.len()
            invariant
                0 <= m < input@.len(),
                1 <= k <= input@.len() || input@.len() <= 1,
                forall|j: int|
                    0 <= j < k ==> lex_le(input@[m as int].name@, (#[trigger] input@[j]).name@),
            decreases input@.len() - k,
        {
            if !name_le(&input[m].name, &input[k].name) {
                proof {
                    lemma_lex_total(input@[m as int].name@, input@[k as int].name@);
                    assert forall|j: int| 0 <= j < k + 1 implies lex_le(
                        input@[k as int].name@,
                        (#[trigger] input@[j]).name@,
                    ) by {
                        if j < k {
                            lemma_lex_trans(
                                input@[k as int].name@,
                                input@[m as int].name@,
                                input@[j].name@,
                            );
                        } else {
                            lemma_lex_total(input@[k as int].name@, input@[k as int].name@);
                        }
                    }
                }
                m = k;
            } else {
                proof {
                    assert forall|j: int| 0 <= j < k + 1 implies lex_le(
                        input@[m as int].name@,
                        (#[trigger] input@[j]).name@,
                    ) by {
                        if j == k {
                            assert(lex_le(input@[m as int].name@, input@[k as int].name@));
                        }
                    }
                }
            }
            k = k + 1;
        }
        let ghost pre_in = input@;
        let ghost pre_out = out@;
        let x = input.remove(m);
        out.push(x);
        proof {
            assert(input@ == pre_in.remove(m as int));
            assert(out@ == pre_out.push(pre_in[m as int]));
            pre_out.to_multiset_ensures();
            pre_in.to_multiset_ensures();
            assert(pre_out.push(pre_in[m as int]).to_multiset() =~= pre_out.to_multiset().insert(
                pre_in[m as int],
            ));
            assert(pre_in.remove(m as int).to_multiset() =~= pre_in.to_multiset().remove(
                pre_in[m as int],
            ));
            assert(out@.to_multiset() =~= pre_out.to_multiset().insert(pre_in[m as int]));
            assert(input@.to_multiset() =~= pre_in.to_multiset().remove(pre_in[m as int]));
            assert(pre_in.to_multiset().contains(pre_in[m as int]));
            assert(out@.to_multiset().add(input@.to_multiset()) =~= pre_out.to_multiset().add(
                pre_in.to_multiset(),
            ));
            assert forall|i: int, j: int|
                0 <= i < out@.len() && 0 <= j < input@.len() implies lex_le(
                (#[trigger] out@[i]).name@,
                (#[trigger] input@[j]).name@,
            ) by {
                let src = if j < m {
                    j
                } else {
                    j + 1
                };
                assert(input@[j] == pre_in[src]);
                if i < pre_out.len() {
                    assert(out@[i] == pre_out[i]);
                } else {
                    assert(out@[i] == pre_in[m as int]);
                }
            }
            assert(sorted_by_name(out@)) by {
                assert(forall|i: int, j: int|
                    0 <= i <= j < pre_out.len() ==> lex_le(
                        (#[trigger] out@[i]).name@,
                        (#[trigger] out@[j]).name@,
                    ));
                assert(forall|i: int|
                    0 <= i < pre_out.len() ==> lex_le(
                        (#[trigger] out@[i]).name@,
                        out@[out@.len() - 1].name@,
                    ));
                lemma_lex_total(pre_in[m as int].name@, pre_in[m as int].name@);
            }
        }
    }
    proof {
        assert(input@.to_multiset() =~= Multiset::<ImportedFile>::empty());
        assert(out@.to_multiset().add(Multiset::<ImportedFile>::empty()) =~= out@.to_multiset());
    }
    let mut total: u64 = 0;
    let mut i: usize = 0;
    proof {
        assert(out@.take(0) =~= Seq::<ImportedFile>::empty());
    }
    while i < out.len()
        invariant
            0 <= i <= out@.len(),
            ({
                let t = sum_sizes(out@.take(i as int));
                total == if t > u64::MAX {
                    u64::MAX as int
                } else {
                    t
                }
            }),
        decreases out@.len() - i,
    {
        let ghost pre = out@.take(i as int);
        proof {
            assert(out@.take(i as int + 1).drop_last() =~= pre);
            assert(out@.take(i as int + 1).last() == out@[i as int]);
        }
        total = match total.checked_add(out[i].size) {
            Some(v) => v,
            None => u64::MAX,
        };
        i = i + 1;
    }
    proof {
        assert(out@.take(out@.len() as int) =~= out@);
    }
    (out, total)
}

/// A path's file name: the last slash-separated component, skipping empty
/// ones and `.`; a trailing `..` names no file.
pub open spec fn last_real_component(parts: Seq<Seq<char>>) -> Option<Seq<char>>
    decreases parts.len(),
{
    if parts.len() == 0 {
        None
    } else if parts.last().len() == 0 || parts.last() == seq!['.'] {
        last_real_component(parts.drop_last())
    } else if parts.last() == seq!['.', '.'] {
        None
    } else {
        Some(parts.last())
    }
}

/// The label a send reports: the single path's file name (or `files` when
/// it has none), else `N items`.
pub open spec fn send_label_spec(paths: Seq<Seq<char>>) -> Seq<char> {
    if paths.len() == 1 {
        match last_real_component(split_at_seps(paths[0], '/')) {
            Some(n) => n,
            None => "files"@,
        }
    } else {
        decimal_of(paths.len() as nat) + " items"@
    }
}

/// Computes the label a send reports for its input paths.
pub fn send_label(paths: &Vec<String>) -> (r: String)
    ensures
        r@ == send_label_spec(crate::paths::str_views(paths@)),
{
    let ghost pv = crate::paths::str_views(paths@);
    if paths.len() == 1 {
        proof {
            assert(pv[0] == paths@[0]@);
        }
        let chars = chars_of(paths[0].as_str());
        let parts = split_char(&chars, '/');
        let ghost allp = crate::text::views_of(parts@);
        let mut j: usize = parts.len();
        proof {
            assert(allp.take(j as int) =~= allp);
            assert(last_real_component(allp) == last_real_component(allp.take(j as int)));
        }
        while j > 0
            invariant
                0 <= j <= parts@.len(),
                paths@.len() == 1,
                allp == crate::text::views_of(parts@),
                allp == split_at_seps(paths@[0]@, '/'),
                last_real_component(allp) == last_real_component(allp.take(j as int)),
            decreases j,
        {
            let p = &parts[j - 1];
            proof {
                assert(allp.take(j as int).last() == allp[j as int - 1]);
                assert(allp[j as int - 1] == p@);
                assert(allp.take(j as int).drop_last() =~= allp.take(j as int - 1));
            }
            if p.len() == 0 || (p.len() == 1 && p[0] == '.') {
                proof {
                    if p@.len() == 1 && p@[0] == '.' {
                        assert(p@ =~= seq!['.']);
                    }
                }
                j = j - 1;
                continue ;
            }
            if p.len() == 2 && p[0] == '.' && p[1] == '.' {
                proof {
                    assert(p@ =~= seq!['.', '.']);
                    assert(last_real_component(allp) is None);
                }
                let f = chars_of("files");
                return string_from_chars(&f);
            }
            proof {
                if p@ == seq!['.'] {
                    assert(p@.len() == 1 && p@[0] == '.');
                }
                if p@ == seq!['.', '.'] {
                    assert(p@.len() == 2 && p@[0] == '.' && p@[1] == '.');
                }
                assert(last_real_component(allp) == Some(p@));
            }
            return string_from_chars(p);
        }
        proof {
            assert(allp.take(0) =~= Seq::<Seq<char>>::empty());
            assert(last_real_component(allp) is None);
        }
        let f = chars_of("files");
        string_from_chars(&f)
    } else {
        let mut out: Vec<char> = Vec::new();
        push_decimal(paths.len() as u64, &mut out);
        let suffix = chars_of(" items");
        push_chars(&mut out, &suffix);
        proof {
            assert(paths@.len() as u64 as nat == paths@.len());
            assert(out@ =~= send_label_spec(pv));
        }
        string_from_chars(&out)
    }
}

/// Where a send stands in its lifecycle.
#[derive(Debug, Clone, Copy, PartialEq, Eq, Structural)]
pub enum SendPhase {
    /// Importing the chosen files into the store.
    Importing,
    /// Waiting for the endpoint to bind.
    Binding,
    /// Waiting for the relay network, then for the ticket.
    Joining,
    /// Serving requests from the peer.
    Serving,
    /// Finished: completed, failed, or cancelled.
    Done,
}

/// The first index holding key `k`, or `-1`.
pub open spec fn find_key(s: Seq<(u64, u64)>, k: u64) -> int
    decreases s.len(),
{
    if s.len() == 0 {
        -1
    } else if s[0].0 == k {
        0
    } else {
        let r = find_key(s.drop_first(), k);
        if r == -1 {
            -1
        } else {
            r + 1
        }
    }
}

/// The table with `k` bound to `v`: the first entry for `k` updated, or a
/// new entry appended.
pub open spec fn assoc_set(s: Seq<(u64, u64)>, k: u64, v: u64) -> Seq<(u64, u64)> {
    let i = find_key(s, k);
    if i >= 0 {
        s.update(i, (k, v))
    } else {
        s.push((k, v))
    }
}

/// `find_key` finds exactly the first match.
pub proof fn lemma_find_key(s: Seq<(u64, u64)>, k: u64, i: int)
    requires
        0 <= i < s.len(),
        s[i].0 == k,
        forall|j: int| 0 <= j < i ==> (#[trigger] s[j]).0 != k,
    ensures
        find_key(s, k) == i,
    decreases s.len(),
{
    if i > 0 {
        assert(forall|j: int|
            0 <= j < i - 1 ==> s.drop_first()[j] == s[j + 1]);
        lemma_find_key(s.drop_first(), k, i - 1);
    }
}

/// A key nowhere in the table is not found.
pub proof fn lemma_find_key_absent(s: Seq<(u64, u64)>, k: u64)
    requires
        forall|j: int| 0 <= j < s.len() ==> (#[trigger] s[j]).0 != k,
    ensures
        find_key(s, k) == -1,
    decreases s.len(),
{
    if s.len() > 0 {
        assert(forall|j: int|
            0 <= j < s.drop_first().len() ==> s.drop_first()[j] == s[j + 1]);
        lemma_find_key_absent(s.drop_first(), k);
    }
}

/// The per-blob offsets summed, saturated at `u64::MAX`.
pub open spec fn transferred_of(s: Seq<(u64, u64)>) -> int {
    let total = sum_offsets(s);
    if total > u64::MAX {
        u64::MAX as int
    } else {
        total
    }
}

/// The unbounded sum of per-blob offsets.
pub open spec fn sum_offsets(s: Seq<(u64, u64)>) -> int
    decreases s.len(),
{
    if s.len() == 0 {
        0
    } else {
        sum_offsets(s.drop_last()) + s.last().1
    }
}

/// One send in progress.
#[derive(Debug)]
pub struct SendTask {
    /// The transfer id every event carries.
    pub id: String,
    /// The paths offered for upload.
    pub paths: Vec<String>,
    /// Walk options.
    pub options: SendOptions,
    /// Where the task stands.
    pub phase: SendPhase,
    /// The label reported in `Started`.
    pub label: String,
    /// The collection entries, sorted by name.
    pub entries: Vec<ImportedFile>,
    /// Total payload size.
    pub total_size: u64,
    /// Blobs expected to complete: the entries plus the metadata blob.
    pub expected_blobs: u64,
    /// Latest end offset per blob index.
    pub blob_progress: Vec<(u64, u64)>,
    /// Blob indices that completed, each once.
    pub completed: Vec<u64>,
    /// Whether any client ever connected.
    pub had_connection: bool,
    /// Whether `Connected` has been emitted.
    pub connection_reported: bool,
    /// Rolling speed estimate.
    pub speed: SpeedTracker,
}

impl SendTask {
    /// A send for the given paths. The first event reports the import.
    pub fn new(id: String, paths: Vec<String>, options: SendOptions) -> (r: (
        SendTask,
        Vec<TransferProgress>,
    ))
        ensures
            r.0.phase is Importing,
            r.0.id == id,
            r.0.paths@ == paths@,
            r.0.options == options,
            r.0.label@ == send_label_spec(crate::paths::str_views(paths@)),
            r.0.entries@ == Seq::<ImportedFile>::empty(),
            r.0.total_size == 0,
            r.0.expected_blobs == 0,
            r.0.blob_progress@ == Seq::<(u64, u64)>::empty(),
            r.0.completed@ == Seq::<u64>::empty(),
            r.0.had_connection == false,
            r.0.connection_reported == false,
            r.0.speed.samples@ == Seq::<(u64, u64)>::empty(),
            r.0.speed.window_ms == crate::speed::DEFAULT_WINDOW_MS,
            r.1@.len() == 1,
            r.1@[0]@ == (crate::events::EventModel::Preparing {
                id: id@,
                status: "Importing files..."@,
            }),
    {
        let label = send_label(&paths);
        let mut events: Vec<TransferProgress> = Vec::new();
        events.push(
            TransferProgress::Preparing { id: id.clone(), status: "Importing files...".to_owned() },
        );
        let task = SendTask {
            id,
            paths,
            options,
            phase: SendPhase::Importing,
            label,
            entries: Vec::new(),
            total_size: 0,
            expected_blobs: 0,
            blob_progress: Vec::new(),
            completed: Vec::new(),
            had_connection: false,
            connection_reported: false,
            speed: SpeedTracker::default_window(),
        };
        (task, events)
    }

    /// The walked files are imported: sort them into the collection order,
    /// fix the total size, and expect one blob per entry plus the
    /// collection metadata.
    pub fn on_imported(&mut self, files: Vec<ImportedFile>) -> (r: Vec<TransferProgress>)
        requires
            old(self).phase is Importing,
        ensures
            final(self).phase is Binding,
            final(self).id == old(self).id,
            final(self).paths@ == old(self).paths@,
            final(self).label == old(self).label,
            final(self).blob_progress@ == old(self).blob_progress@,
            final(self).completed@ == old(self).completed@,
            final(self).had_connection == old(self).had_connection,
            final(self).connection_reported == old(self).connection_reported,
            final(self).speed == old(self).speed,
            sorted_by_name(final(self).entries@),
            final(self).entries@.to_multiset() == files@.to_multiset(),
            final(self).total_size == total_size_of(final(self).entries@),
            final(self).expected_blobs == if final(self).entries@.len() + 1 > u64::MAX {
                u64::MAX as int
            } else {
                final(self).entries@.len() + 1 as int
            },
            r@.len() == 1,
            r@[0]@ == (crate::events::EventModel::Preparing {
                id: old(self).id@,
                status: "Creating endpoint..."@,
            }),
    {
        let (entries, total) = assemble_collection(files);
        let n = entries.len();
        self.entries = entries;
        self.total_size = total;
        self.expected_blobs = match (n as u64).checked_add(1) {
            Some(v) => v,
            None => u64::MAX,
        };
        self.phase = SendPhase::Binding;
        let mut events: Vec<TransferProgress> = Vec::new();
        events.push(
            TransferProgress::Preparing {
                id: self.id.clone(),
                status: "Creating endpoint...".to_owned(),
            },
        );
        events
    }

    /// The endpoint is bound and the protocol router runs; the task now
    /// waits for the relay network (a timeout there is only a warning).
    pub fn on_endpoint_ready(&mut self) -> (r: Vec<TransferProgress>)
        requires
            old(self).phase is Binding,
        ensures
            *final(self) == (SendTask { phase: SendPhase::Joining, ..*old(self) }),
            r@.len() == 1,
            r@[0]@ == (crate::events::EventModel::Preparing {
                id: old(self).id@,
                status: "Joining relay network..."@,
            }),
    {
        self.phase = SendPhase::Joining;
        let mut events: Vec<TransferProgress> = Vec::new();
        events.push(
            TransferProgress::Preparing {
                id: self.id.clone(),
                status: "Joining relay network...".to_owned(),
            },
        );
        events
    }

    /// The ticket is built from the endpoint address and the collection's
    /// root hash: publish it, report the final label and size, and wait
    /// for a peer.
    pub fn on_ticket(&mut self, ticket: String) -> (r: Vec<TransferProgress>)
        requires
            old(self).phase is Joining,
        ensures
            *final(self) == (SendTask { phase: SendPhase::Serving, ..*old(self) }),
            r@.len() == 3,
            r@[0] == (TransferProgress::TicketReady { id: old(self).id, ticket }),
            r@[1] == (TransferProgress::Started {
                id: old(self).id,
                name: old(self).label,
                total_bytes: old(self).total_size,
            }),
            r@[2] == (TransferProgress::Connecting { id: old(self).id }),
    {
        self.phase = SendPhase::Serving;
        let mut events: Vec<TransferProgress> = Vec::new();
        events.push(TransferProgress::TicketReady { id: self.id.clone(), ticket });
        events.push(
            TransferProgress::Started {
                id: self.id.clone(),
                name: self.label.clone(),
                total_bytes: self.total_size,
            },
        );
        events.push(TransferProgress::Connecting { id: self.id.clone() });
        events
    }

    /// A client connected. The first connection is reported once, as a
    /// direct path: the sender cannot classify its transport, and the
    /// receiver's classification is the authoritative one.
    pub fn on_client_connected(&mut self) -> (r: Vec<TransferProgress>)
        requires
            old(self).phase is Serving,
        ensures
            *final(self) == (SendTask {
                had_connection: true,
                connection_reported: true,
                ..*old(self)
            }),
            old(self).connection_reported ==> r@.len() == 0,
            !old(self).connection_reported ==> r@.len() == 1 && r@[0] == (
            TransferProgress::Connected { id: old(self).id, is_relay: false }),
    {
        self.had_connection = true;
        let mut events: Vec<TransferProgress> = Vec::new();
        if !self.connection_reported {
            self.connection_reported = true;
            events.push(TransferProgress::Connected { id: self.id.clone(), is_relay: false });
        }
        events
    }

    /// A per-blob update from the provider: record the blob's latest
    /// offset, mark it completed when it is, and report the aggregate
    /// progress with a fresh speed estimate. Returns the events and
    /// whether every expected blob is now complete. Updates arrive only
    /// over a client's connection, so `Connected` always precedes the
    /// first `Progress`.
    pub fn on_blob_progress(&mut self, index: u64, offset: u64, complete: bool, now_ms: u64) -> (r:
        (Vec<TransferProgress>, bool))
        requires
            old(self).phase is Serving,
            old(self).had_connection,
        ensures
            final(self).phase is Serving,
            final(self).id == old(self).id,
            final(self).label == old(self).label,
            final(self).total_size == old(self).total_size,
            final(self).entries@ == old(self).entries@,
            final(self).had_connection == old(self).had_connection,
            final(self).connection_reported == old(self).connection_reported,
            final(self).speed.window_ms == old(self).speed.window_ms,
            final(self).blob_progress@ == assoc_set(old(self).blob_progress@, index, offset),
            final(self).completed@ == if complete && !old(self).completed@.contains(index) {
                old(self).completed@.push(index)
            } else {
                old(self).completed@
            },
            r.1 == (final(self).completed@.len() >= final(self).expected_blobs),
            final(self).expected_blobs == old(self).expected_blobs,
            final(self).speed.samples@ == drop_stale(
                old(self).speed.samples@.push(
                    (now_ms, transferred_of(final(self).blob_progress@) as u64),
                ),
                now_ms,
                old(self).speed.window_ms,
            ),
            r.0@.len() == 1,
            r.0@[0] == (TransferProgress::Progress {
                id: old(self).id,
                transferred_bytes: transferred_of(final(self).blob_progress@) as u64,
                speed_bps: speed_of(final(self).speed.samples@) as u64,
            }),
    {
        let ghost bp0 = self.blob_progress@;
        let mut i: usize = 0;
        let mut found = false;
        while i < self.blob_progress.len() && !found
            invariant
                0 <= i <= self.blob_progress@.len(),
                self.blob_progress@ == bp0,
                !found ==> forall|j: int| 0 <= j < i ==> (#[trigger] bp0[j]).0 != index,
                found ==> i < bp0.len() && bp0[i as int].0 == index && (forall|j: int|
                    0 <= j < i ==> (#[trigger] bp0[j]).0 != index),
            decreases bp0.len() - i + (if found { 0int } else { 1int }),
        {
            if self.blob_progress[i].0 == index {
                found = true;
            } else {
                i = i + 1;
            }
        }
        if found {
            self.blob_progress.remove(i);
            self.blob_progress.insert(i, (index, offset));
            proof {
                lemma_find_key(bp0, index, i as int);
                assert(self.blob_progress@ =~= bp0.update(i as int, (index, offset)));
                assert(self.blob_progress@ =~= assoc_set(bp0, index, offset));
            }
        } else {
            self.blob_progress.push((index, offset));
            proof {
                lemma_find_key_absent(bp0, index);
                assert(self.blob_progress@ =~= assoc_set(bp0, index, offset));
            }
        }
        if complete {
            let mut seen = false;
            let mut j: usize = 0;
            let ghost comp0 = self.completed@;
            while j < self.completed.len() && !seen
                invariant
                    0 <= j <= comp0.len(),
                    self.completed@ == comp0,
                    !seen ==> forall|t: int| 0 <= t < j ==> comp0[t] != index,
                    seen ==> comp0.contains(index),
                decreases comp0.len() - j + (if seen { 0int } else { 1int }),
            {
                if self.completed[j] == index {
                    seen = true;
                } else {
                    j = j + 1;
                }
            }
            proof {
                if !seen && comp0.contains(index) {
                    let w = choose|w: int| 0 <= w < comp0.len() && comp0[w] == index;
                    assert(comp0[w] != index);
                }
            }
            if !seen {
                self.completed.push(index);
            }
        }
        let ghost bp = self.blob_progress@;
        let mut total: u64 = 0;
        let mut t: usize = 0;
        proof {
            assert(bp.take(0) =~= Seq::<(u64, u64)>::empty());
        }
        while t < self.blob_progress.len()
            invariant
                0 <= t <= bp.len(),
                self.blob_progress@ == bp,
                self.id == old(self).id,
                ({
                    let s = sum_offsets(bp.take(t as int));
                    total == if s > u64::MAX {
                        u64::MAX as int
                    } else {
                        s
                    }
                }),
            decreases bp.len() - t,
        {
            proof {
                assert(bp.take(t as int + 1).drop_last() =~= bp.take(t as int));
                assert(bp.take(t as int + 1).last() == bp[t as int]);
            }
            total = match total.checked_add(self.blob_progress[t].1) {
                Some(v) => v,
                None => u64::MAX,
            };
            t = t + 1;
        }
        proof {
            assert(bp.take(bp.len() as int) =~= bp);
        }
        self.speed.add_sample_at(now_ms, total);
        let bps = self.speed.speed_bps();
        let mut events: Vec<TransferProgress> = Vec::new();
        events.push(
            TransferProgress::Progress {
                id: self.id.clone(),
                transferred_bytes: total,
                speed_bps: bps,
            },
        );
        let all_done = self.completed.len() as u64 >= self.expected_blobs;
        (events, all_done)
    }

    /// The connection closed: the task is finished when every blob was
    /// sent or any client had connected at all.
    pub fn on_connection_closed(&self) -> (r: bool)
        requires
            self.phase is Serving,
        ensures
            r == (self.completed@.len() >= self.expected_blobs || self.had_connection),
    {
        self.completed.len() as u64 >= self.expected_blobs || self.had_connection
    }

    /// Serving is over: the task completes with the total size and the
    /// elapsed time. The runtime releases the temp tag and the router
    /// before this terminal event, so the endpoint's port is freed.
    pub fn finish(&mut self, duration_millis: u64) -> (r: Vec<TransferProgress>)
        requires
            old(self).phase is Serving,
        ensures
            *final(self) == (SendTask { phase: SendPhase::Done, ..*old(self) }),
            r@.len() == 1,
            r@[0] == (TransferProgress::Completed {
                id: old(self).id,
                total_bytes: old(self).total_size,
                duration_millis,
            }),
    {
        self.phase = SendPhase::Done;
        let mut events: Vec<TransferProgress> = Vec::new();
        events.push(
            TransferProgress::Completed {
                id: self.id.clone(),
                total_bytes: self.total_size,
                duration_millis,
            },
        );
        events
    }

    /// Importing, storing the collection, or binding the endpoint failed:
    /// the task ends with one `Failed` carrying the cause.
    pub fn fail(&mut self, error: String) -> (r: Vec<TransferProgress>)
        requires
            !(old(self).phase is Done),
        ensures
            *final(self) == (SendTask { phase: SendPhase::Done, ..*old(self) }),
            r@.len() == 1,
            r@[0]@ == (crate::events::EventModel::Failed { id: old(self).id@, error: error@ }),
    {
        self.phase = SendPhase::Done;
        let mut events: Vec<TransferProgress> = Vec::new();
        events.push(TransferProgress::Failed { id: self.id.clone(), error });
        events
    }

    /// The cancellation token fired: the task ends with one `Cancelled`.
    /// The runtime releases the temp tag and the router first.
    pub fn cancel(&mut self) -> (r: Vec<TransferProgress>)
        requires
            !(old(self).phase is Done),
        ensures
            *final(self) == (SendTask { phase: SendPhase::Done, ..*old(self) }),
            r@.len() == 1,
            r@[0] == (TransferProgress::Cancelled { id: old(self).id }),
    {
        self.phase = SendPhase::Done;
        let mut events: Vec<TransferProgress> = Vec::new();
        events.push(TransferProgress::Cancelled { id: self.id.clone() });
        events
    }
}


} // verus!
