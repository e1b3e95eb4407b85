//! Plain state the presentation layer keeps per transfer.
//!
//! These types carry no behaviour of their own beyond small pure
//! calculations: tab cycling, status labels and symbols, per-transfer
//! progress arithmetic, and the capping of stored file lists.

use vstd::prelude::*;

use crate::events::ConflictResolution;
use crate::text::{chars_of, push_chars, string_from_chars};

verus! {

/// The active tab.
#[derive(Debug, Clone, Copy, PartialEq, Eq, Structural)]
pub enum Mode {
    Send,
    Receive,
    Active,
    History,
}

impl Default for Mode {
    /// The send tab.
    fn default() -> (r: Self)
        ensures
            r == Mode::Send,
    {
        Mode::Send
    }
}

impl Mode {
    /// Every tab, in display order.
    pub fn all() -> (r: Vec<Mode>)
        ensures
            r@ == seq![Mode::Send, Mode::Receive, Mode::Active, Mode::History],
    {
        let mut v: Vec<Mode> = Vec::new();
        v.push(Mode::Send);
        v.push(Mode::Receive);
        v.push(Mode::Active);
        v.push(Mode::History);
        proof {
            assert(v@ =~= seq![Mode::Send, Mode::Receive, Mode::Active, Mode::History]);
        }
        v
    }

    /// The tab's display name.
    pub fn label(&self) -> (r: &'static str)
        ensures
            self is Send ==> r@ == "Send"@,
            self is Receive ==> r@ == "Receive"@,
            self is Active ==> r@ == "Active"@,
            self is History ==> r@ == "History"@,
    {
        match self {
            Mode::Send => "Send",
            Mode::Receive => "Receive",
            Mode::Active => "Active",
            Mode::History => "History",
        }
    }

    /// The tab's position, left to right.
    pub fn index(&self) -> (r: usize)
        ensures
            r == self.index_spec(),
    {
        match self {
            Mode::Send => 0,
            Mode::Receive => 1,
            Mode::Active => 2,
            Mode::History => 3,
        }
    }

    /// The tab's position, left to right.
    pub open spec fn index_spec(&self) -> int {
        match self {
            Mode::Send => 0,
            Mode::Receive => 1,
            Mode::Active => 2,
            Mode::History => 3,
        }
    }

    /// The tab at a position, wrapping around.
    pub open spec fn from_index_spec(i: int) -> Mode {
        if i % 4 == 0 {
            Mode::Send
        } else if i % 4 == 1 {
            Mode::Receive
        } else if i % 4 == 2 {
            Mode::Active
        } else {
            Mode::History
        }
    }

    /// The tab at a position, wrapping around.
    pub fn from_index(i: usize) -> (r: Mode)
        ensures
            r == Mode::from_index_spec(i as int),
    {
        let k = i % 4;
        if k == 0 {
            Mode::Send
        } else if k == 1 {
            Mode::Receive
        } else if k == 2 {
            Mode::Active
        } else {
            Mode::History
        }
    }

    /// The tab to the right, wrapping around.
    pub fn next(&self) -> (r: Mode)
        ensures
            r == Mode::from_index_spec(self.index_spec() + 1),
    {
        Mode::from_index(self.index() + 1)
    }

    /// The tab to the left, wrapping around.
    pub fn prev(&self) -> (r: Mode)
        ensures
            r == Mode::from_index_spec(self.index_spec() + 3),
    {
        Mode::from_index((self.index() + 3) % 4)
    }
}

/// Aggregate network status shown in the header.
#[derive(Debug, Clone, Copy, PartialEq, Eq, Structural)]
pub enum ConnectionStatus {
    Ready,
    Connecting,
    P2P,
    Relay,
}

impl Default for ConnectionStatus {
    /// Ready: no transfer is talking to the network.
    fn default() -> (r: Self)
        ensures
            r == ConnectionStatus::Ready,
    {
        ConnectionStatus::Ready
    }
}

impl ConnectionStatus {
    /// The status's display name.
    pub fn label(&self) -> (r: &'static str)
        ensures
            self is Ready ==> r@ == "Ready"@,
            self is Connecting ==> r@ == "Connecting"@,
            self is P2P ==> r@ == "P2P"@,
            self is Relay ==> r@ == "Relay"@,
    {
        match self {
            ConnectionStatus::Ready => "Ready",
            ConnectionStatus::Connecting => "Connecting",
            ConnectionStatus::P2P => "P2P",
            ConnectionStatus::Relay => "Relay",
        }
    }

    /// The status's one-character symbol.
    pub fn symbol(&self) -> (r: &'static str)
        ensures
            self is Ready ==> r@ == "○"@,
            self is Connecting ==> r@ == "◐"@,
            self is P2P ==> r@ == "●"@,
            self is Relay ==> r@ == "◑"@,
    {
        match self {
            ConnectionStatus::Ready => "○",
            ConnectionStatus::Connecting => "◐",
            ConnectionStatus::P2P => "●",
            ConnectionStatus::Relay => "◑",
        }
    }
}

/// Which way a transfer moves.
#[derive(Debug, Clone, Copy, PartialEq, Eq, Structural)]
pub enum TransferDirection {
    Upload,
    Download,
}

/// A transfer's display status.
#[derive(Debug, Clone, Copy, PartialEq, Eq, Structural)]
pub enum TransferStatus {
    /// Importing files or creating the endpoint.
    Preparing,
    /// Waiting for the peer.
    Connecting,
    /// Moving data.
    Active,
    Paused,
    Stalled,
    Queued,
    Failed,
    Complete,
}

impl TransferStatus {
    /// The status's short symbol.
    pub fn symbol(&self) -> (r: &'static str)
        ensures
            self is Preparing ==> r@ == "..."@,
            self is Connecting ==> r@ == "◐"@,
            self is Active ==> r@ == ">"@,
            self is Paused ==> r@ == "||"@,
            self is Stalled ==> r@ == "!"@,
            self is Queued ==> r@ == "~"@,
            self is Failed ==> r@ == "x"@,
            self is Complete ==> r@ == "*"@,
    {
        match self {
            TransferStatus::Preparing => "...",
            TransferStatus::Connecting => "◐",
            TransferStatus::Active => ">",
            TransferStatus::Paused => "||",
            TransferStatus::Stalled => "!",
            TransferStatus::Queued => "~",
            TransferStatus::Failed => "x",
            TransferStatus::Complete => "*",
        }
    }

    /// The status's caption; an active transfer shows none.
    pub fn label(&self) -> (r: &'static str)
        ensures
            self is Preparing ==> r@ == "PREPARING"@,
            self is Connecting ==> r@ == "WAITING"@,
            self is Active ==> r@ == ""@,
            self is Paused ==> r@ == "PAUSED"@,
            self is Stalled ==> r@ == "STALLED"@,
            self is Queued ==> r@ == "QUEUED"@,
            self is Failed ==> r@ == "FAILED"@,
            self is Complete ==> r@ == "DONE"@,
    {
        match self {
            TransferStatus::Preparing => "PREPARING",
            TransferStatus::Connecting => "WAITING",
            TransferStatus::Active => "",
            TransferStatus::Paused => "PAUSED",
            TransferStatus::Stalled => "STALLED",
            TransferStatus::Queued => "QUEUED",
            TransferStatus::Failed => "FAILED",
            TransferStatus::Complete => "DONE",
        }
    }
}

/// How many files a transfer record stores for display.
pub const MAX_STORED_FILES: usize = 15;

/// One file shown in a transfer's detail view.
#[derive(Debug, Clone)]
pub struct TransferFile {
    /// The file's display name.
    pub name: String,
    /// The file's size in bytes.
    pub size: u64,
}

/// One transfer as the presentation layer tracks it.
#[derive(Debug, Clone)]
pub struct Transfer {
    pub id: String,
    pub direction: TransferDirection,
    pub name: String,
    pub total_bytes: u64,
    pub transferred_bytes: u64,
    pub speed_bps: u64,
    pub status: TransferStatus,
    pub ticket: Option<String>,
    pub connection: ConnectionStatus,
    pub error_message: Option<String>,
    pub conflict_resolution: Option<ConflictResolution>,
    pub duration_millis: Option<u64>,
    pub files: Vec<TransferFile>,
    pub additional_file_count: usize,
    pub source_paths: Option<Vec<String>>,
}

impl Transfer {
    /// Seconds left at the current speed, when there is one.
    pub fn eta_seconds(&self) -> (r: Option<u64>)
        ensures
            self.speed_bps == 0 ==> r is None,
            self.speed_bps > 0 ==> r == Some(
                ((if self.transferred_bytes <= self.total_bytes {
                    self.total_bytes - self.transferred_bytes
                } else {
                    0
                }) / self.speed_bps as int) as u64,
            ),
    {
        if self.speed_bps == 0 {
            return None;
        }
        let remaining = if self.transferred_bytes <= self.total_bytes {
            self.total_bytes - self.transferred_bytes
        } else {
            0
        };
        Some(remaining / self.speed_bps)
    }

    /// Bytes still to move, never negative.
    pub fn remaining_bytes(&self) -> (r: u64)
        ensures
            r == if self.transferred_bytes <= self.total_bytes {
                self.total_bytes - self.transferred_bytes
            } else {
                0
            },
    {
        if self.transferred_bytes <= self.total_bytes {
            self.total_bytes - self.transferred_bytes
        } else {
            0
        }
    }

    /// Stores a file list, keeping at most `MAX_STORED_FILES` entries and
    /// counting the rest.
    pub fn set_files(&mut self, files: Vec<TransferFile>)
        ensures
            files@.len() <= MAX_STORED_FILES ==> final(self).files@ == files@
                && final(self).additional_file_count == 0,
            files@.len() > MAX_STORED_FILES ==> final(self).files@ == files@.take(
                MAX_STORED_FILES as int,
            ) && final(self).additional_file_count == files@.len() - MAX_STORED_FILES,
            final(self).id == old(self).id,
            final(self).total_bytes == old(self).total_bytes,
    {
        let total = files.len();
        if total > MAX_STORED_FILES {
            let mut input = files;
            let ghost orig = input@;
            let mut kept: Vec<TransferFile> = Vec::new();
            proof {
                assert(kept@ =~= orig.take(0));
                assert(input@ =~= orig.skip(0));
            }
            while kept.len() < MAX_STORED_FILES
                invariant
                    kept@.len() <= MAX_STORED_FILES,
                    orig.len() > MAX_STORED_FILES,
                    kept@ == orig.take(kept@.len() as int),
                    input@ == orig.skip(kept@.len() as int),
                decreases MAX_STORED_FILES - kept@.len(),
            {
                let ghost k = kept@.len();
                let x = input.remove(0);
                kept.push(x);
                proof {
                    assert(orig.skip(k as int)[0] == orig[k as int]);
                    assert(kept@ =~= orig.take(k as int + 1));
                    assert(input@ =~= orig.skip(k as int + 1));
                }
            }
            self.files = kept;
            self.additional_file_count = total - MAX_STORED_FILES;
        } else {
            self.files = files;
            self.additional_file_count = 0;
        }
    }

    /// How many files the transfer carries, stored or only counted.
    pub fn total_file_count(&self) -> (r: usize)
        ensures
            r == if self.files@.len() + self.additional_file_count > usize::MAX {
                usize::MAX as int
            } else {
                self.files@.len() + self.additional_file_count
            },
    {
        let n = self.files.len();
        match n.checked_add(self.additional_file_count) {
            Some(v) => v,
            None => usize::MAX,
        }
    }
}

/// The conflict question shown to the user.
#[derive(Debug, Clone)]
pub struct ConflictPopup {
    /// The receive the question belongs to.
    pub transfer_id: String,
    /// The conflicting `(name, existing path)` pairs.
    pub conflicts: Vec<(String, String)>,
    /// The payload size of the transfer.
    pub total_bytes: u64,
    /// The highlighted choice: rename, overwrite, skip, or cancel.
    pub selected: usize,
}

/// The theme picker's state.
#[derive(Debug, Clone)]
pub struct ThemePopup {
    /// The highlighted entry.
    pub selected: usize,
}

impl ThemePopup {
    /// A picker opened on the current theme.
    pub fn new(current: crate::theme::ThemeKind) -> (r: Self)
        ensures
            r.selected == match current {
                crate::theme::ThemeKind::CatppuccinMocha => 0int,
                crate::theme::ThemeKind::TokyoNight => 1int,
                crate::theme::ThemeKind::Dracula => 2int,
                crate::theme::ThemeKind::Nord => 3int,
                crate::theme::ThemeKind::GruvboxDark => 4int,
            },
    {
        let selected: usize = match current {
            crate::theme::ThemeKind::CatppuccinMocha => 0,
            crate::theme::ThemeKind::TokyoNight => 1,
            crate::theme::ThemeKind::Dracula => 2,
            crate::theme::ThemeKind::Nord => 3,
            crate::theme::ThemeKind::GruvboxDark => 4,
        };
        ThemePopup { selected }
    }
}

/// The key-preset picker's state.
#[derive(Debug, Clone)]
pub struct KeyPresetPopup {
    /// The highlighted entry.
    pub selected: usize,
}

impl KeyPresetPopup {
    /// A picker opened on the current preset.
    pub fn new(current: crate::input::KeyPreset) -> (r: Self)
        ensures
            r.selected == match current {
                crate::input::KeyPreset::Vim => 0int,
                crate::input::KeyPreset::Arrows => 1int,
                crate::input::KeyPreset::Emacs => 2int,
            },
    {
        let selected: usize = match current {
            crate::input::KeyPreset::Vim => 0,
            crate::input::KeyPreset::Arrows => 1,
            crate::input::KeyPreset::Emacs => 2,
        };
        KeyPresetPopup { selected }
    }
}

/// The platform's default download directory: `Downloads` under the home
/// directory, when one is known.
pub fn download_dir(home: Option<&str>) -> (r: Option<String>)
    ensures
        home is None ==> r is None,
        home matches Some(h) ==> r is Some && r->0@ == h@ + "/Downloads"@,
{
    match home {
        Some(h) => {
            let mut out = chars_of(h);
            let suffix = chars_of("/Downloads");
            push_chars(&mut out, &suffix);
            Some(string_from_chars(&out))
        },
        None => None,
    }
}

} // verus!
