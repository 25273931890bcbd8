//! What the engine shows of its torrents: where a torrent came from, its title, its tracker
//! rows and its progress.
use crate::download_directory::DownloadDirectoryError;
use crate::magnet::{MagnetTorrentError, MagnetURIMeta};
use crate::text::{last_index_of, take_chars, trim, trimmed};
use crate::torrent::TError;
use crate::tracker::{state_label, TrackerState};
use vstd::prelude::*;

verus! {

/// Where a torrent comes from.
pub enum TorrentSource {
    MagnetURI(String),
    FilePath(String),
}

impl TorrentSource {
    /// A short name for the kind of source.
    pub fn kind(&self) -> (k: &'static str)
        ensures
            match self {
                TorrentSource::MagnetURI(_) => k@ == "magnet"@,
                TorrentSource::FilePath(_) => k@ == "file"@,
            },
    {
        match self {
            TorrentSource::MagnetURI(_) => "magnet",
            TorrentSource::FilePath(_) => "file",
        }
    }
}

/// Why the engine could not take a torrent.
#[derive(Debug)]
pub enum EngineError {
    CommandChannelClosed,
    ResponseChannelClosed,
    InvalidTorrentFile(TError),
    InvalidMagnetUri,
    Magnet(MagnetTorrentError),
    DownloadDirectory(DownloadDirectoryError),
}

/// One tracker row: its URL, its status text and whether that status is an error.
pub struct TrackerSnapshot {
    pub url: String,
    pub status: String,
    pub is_error: bool,
}

/// Builds tracker rows.
pub struct TrackerSnapshotList;

impl TrackerSnapshotList {
    /// Rows for trackers that have not been contacted yet: each address is `Queued`.
    pub fn queued(addresses: Vec<String>) -> (rows: Vec<TrackerSnapshot>)
        ensures
            rows@.len() == addresses@.len(),
            forall|i: int|
                0 <= i < rows@.len() ==> (#[trigger] rows@[i]).url@ == addresses@[i]@ && rows@[i].status@
                    == "Queued"@ && !rows@[i].is_error,
    {
        let mut rows: Vec<TrackerSnapshot> = Vec::new();
        let mut i: usize = 0;
        while i < addresses.len()
            invariant
                i <= addresses@.len(),
                rows@.len() == i,
                forall|k: int|
                    0 <= k < i ==> (#[trigger] rows@[k]).url@ == addresses@[k]@ && rows@[k].status@
                        == "Queued"@ && !rows@[k].is_error,
            decreases addresses@.len() - i,
        {
            rows.push(
                TrackerSnapshot {
                    url: addresses[i].clone(),
                    status: String::from_str("Queued"),
                    is_error: false,
                },
            );
            i = i + 1;
        }
        rows
    }
}

/// A tracker as the engine knows it: its address, its state, and the seconds since its last
/// failure (shown for an unresolved tracker).
pub struct TrackerRow {
    pub address: String,
    pub state: TrackerState,
    pub elapsed_secs: u64,
}

/// The trackers of all tiers, tier by tier.
pub open spec fn all_trackers(tiers: Seq<Vec<TrackerRow>>) -> Seq<TrackerRow> {
    tiers.map_values(|t: Vec<TrackerRow>| t@).flatten()
}

/// The row shown for a tracker: its address, its state's text, and whether that state is an
/// error (unresolved or idle).
pub open spec fn snapshot_of(t: TrackerRow, s: TrackerSnapshot) -> bool {
    &&& s.url@ == t.address@
    &&& s.status@ == state_label(t.state, t.elapsed_secs)
    &&& s.is_error == (t.state is DNSUnresolved || t.state is Idle)
}

impl TrackerSnapshotList {
    /// One row per tracker of the tiers, in order; where there is none, the `fallback`
    /// addresses as queued rows.
    pub fn from_trackers(tiers: &Vec<Vec<TrackerRow>>, fallback: Vec<String>) -> (rows: Vec<
        TrackerSnapshot,
    >)
        ensures
            all_trackers(tiers@).len() > 0 ==> rows@.len() == all_trackers(tiers@).len() && forall|
                i: int,
            |
                0 <= i < rows@.len() ==> snapshot_of(all_trackers(tiers@)[i], #[trigger] rows@[i]),
            all_trackers(tiers@).len() == 0 ==> rows@.len() == fallback@.len() && forall|i: int|
                0 <= i < rows@.len() ==> (#[trigger] rows@[i]).url@ == fallback@[i]@
                    && rows@[i].status@ == "Queued"@ && !rows@[i].is_error,
    {
        let mut rows: Vec<TrackerSnapshot> = Vec::new();
        let ghost views = tiers@.map_values(|t: Vec<TrackerRow>| t@);
        assert(views.take(0) =~= Seq::<Seq<TrackerRow>>::empty());
        let mut k: usize = 0;
        while k < tiers.len()
            invariant
                k <= tiers@.len(),
                views == tiers@.map_values(|t: Vec<TrackerRow>| t@),
                rows@.len() == views.take(k as int).flatten().len(),
                forall|i: int|
                    0 <= i < rows@.len() ==> snapshot_of(
                        views.take(k as int).flatten()[i],
                        #[trigger] rows@[i],
                    ),
            decreases tiers@.len() - k,
        {
            let tier = &tiers[k];
            let ghost base = rows@.len();
            let ghost done = views.take(k as int).flatten();
            let mut j: usize = 0;
            while j < tier.len()
                invariant
                    j <= tier@.len(),
                    tier@ == views[k as int],
                    base == done.len(),
                    rows@.len() == base + j,
                    forall|i: int| 0 <= i < base ==> snapshot_of(done[i], #[trigger] rows@[i]),
                    forall|i: int|
                        0 <= i < j ==> snapshot_of(tier@[i], #[trigger] rows@[base + i]),
                decreases tier@.len() - j,
            {
                let t = &tier[j];
                let row = TrackerSnapshot {
                    url: t.address.clone(),
                    status: t.state.label(t.elapsed_secs),
                    is_error: t.state.is_error(),
                };
                rows.push(row);
                assert(snapshot_of(tier@[j as int], rows@[base + j]));
                j = j + 1;
            }
            proof {
                views.take(k as int).lemma_flatten_push(views[k as int]);
                assert(views.take(k + 1) =~= views.take(k as int).push(views[k as int]));
                let f = views.take(k + 1).flatten();
                assert(f =~= done + tier@);
                assert forall|i: int| 0 <= i < rows@.len() implies snapshot_of(
                    f[i],
                    #[trigger] rows@[i],
                ) by {
                    if i >= base {
                        assert(rows@[i] == rows@[base + (i - base)]);
                    }
                }
            }
            k = k + 1;
        }
        assert(views.take(k as int) =~= views);
        if rows.len() == 0 {
            return Self::queued(fallback);
        }
        rows
    }
}

/// What a torrent is doing, as the torrents list shows it.
#[derive(Debug, Clone, Copy, PartialEq, Eq)]
pub enum TorrentStatus {
    Downloading,
    Seeding,
    Paused,
}

impl TorrentStatus {
    /// The text the status is shown with.
    pub fn label(&self) -> (s: &'static str)
        ensures
            match self {
                TorrentStatus::Downloading => s@ == "Downloading"@,
                TorrentStatus::Seeding => s@ == "Seeding"@,
                TorrentStatus::Paused => s@ == "Paused"@,
            },
    {
        match self {
            TorrentStatus::Downloading => "Downloading",
            TorrentStatus::Seeding => "Seeding",
            TorrentStatus::Paused => "Paused",
        }
    }
}

/// Percentage of `bytes_complete` in `bytes_total`, capped at 100; 0 while the total is
/// unknown or zero.
pub open spec fn spec_progress_percent(bytes_complete: nat, bytes_total: Option<usize>) -> int {
    match bytes_total {
        None => 0,
        Some(t) => if t == 0 {
            0
        } else {
            let scaled = if bytes_complete * 100 > usize::MAX {
                usize::MAX as int
            } else {
                (bytes_complete * 100) as int
            };
            if scaled / (t as int) > 100 {
                100
            } else {
                scaled / (t as int)
            }
        },
    }
}

/// Download progress in percent (the product with 100 saturates at `usize::MAX`).
pub fn progress_percent(bytes_complete: usize, bytes_total: Option<usize>) -> (p: u16)
    ensures
        p == spec_progress_percent(bytes_complete as nat, bytes_total),
{
    let total = match bytes_total {
        Some(t) => t,
        None => {
            return 0;
        },
    };
    if total == 0 {
        return 0;
    }
    let scaled = match bytes_complete.checked_mul(100) {
        Some(v) => v,
        None => usize::MAX,
    };
    let ratio = scaled / total;
    if ratio > 100 {
        100
    } else {
        ratio as u16
    }
}

// ---------------------------------------------------------------------------------------------
// Magnet titles
// ---------------------------------------------------------------------------------------------

/// The hash of an exact topic: what follows its last `:`, if that is not empty.
pub open spec fn spec_hash_from_exact_topic(t: Seq<char>) -> Option<Seq<char>> {
    match last_index_of(t, ':') {
        Some(i) => if i + 1 < t.len() {
            Some(t.subrange(i + 1, t.len() as int))
        } else {
            None
        },
        None => None,
    }
}

/// The title of a magnet torrent: its trimmed display name if that is not empty, else
/// `Magnet ` and the first twelve characters of the hash of its exact topic, else
/// `Magnet torrent`.
pub open spec fn spec_magnet_title(dn: Option<Seq<char>>, xt: Option<Seq<char>>) -> Seq<char> {
    if dn matches Some(d) && trimmed(d).len() > 0 {
        trimmed(dn->0)
    } else if xt matches Some(x) && spec_hash_from_exact_topic(x) is Some {
        "Magnet "@ + take_chars(spec_hash_from_exact_topic(xt->0)->0, 12)
    } else {
        "Magnet torrent"@
    }
}

/// The text a magnet torrent is listed under.
pub struct MagnetTitle {
    display: String,
}

impl View for MagnetTitle {
    type V = Seq<char>;

    closed spec fn view(&self) -> Seq<char> {
        self.display@
    }
}

impl MagnetTitle {
    /// The title of the magnet torrent with fields `meta`.
    pub fn from_meta(meta: &MagnetURIMeta) -> (t: MagnetTitle)
        ensures
            t@ == spec_magnet_title(meta@.dn, meta@.xt),
    {
        if let Some(dn) = &meta.dn {
            let name = trim(dn.as_str());
            if name.unicode_len() > 0 {
                return MagnetTitle { display: String::from_str(name) };
            }
        }
        if let Some(xt) = &meta.xt {
            if let Some(hash) = Self::hash_from_exact_topic(xt.as_str()) {
                let mut display = String::from_str("Magnet ");
                let short = Self::short_hash(hash);
                display.append(short.as_str());
                return MagnetTitle { display };
            }
        }
        MagnetTitle { display: String::from_str("Magnet torrent") }
    }

    /// The title's text.
    pub fn display(self) -> (s: String)
        ensures
            s@ == self@,
    {
        self.display
    }

    /// What follows the last `:` of an exact topic, if that is not empty.
    pub fn hash_from_exact_topic(exact_topic: &str) -> (r: Option<&str>)
        ensures
            match spec_hash_from_exact_topic(exact_topic@) {
                Some(h) => r matches Some(s) && s@ == h,
                None => r is None,
            },
    {
        let n = exact_topic.unicode_len();
        match crate::text::rfind_char(exact_topic, ':') {
            Some(i) => if i + 1 < n {
                Some(exact_topic.substring_char(i + 1, n))
            } else {
                None
            },
            None => None,
        }
    }

    /// The first twelve characters of a hash.
    pub fn short_hash(hash: &str) -> (s: String)
        ensures
            s@ == take_chars(hash@, 12),
    {
        let n = hash.unicode_len();
        let end = if n < 12 {
            n
        } else {
            12
        };
        let prefix = hash.substring_char(0, end);
        proof {
            if n <= 12 {
                assert(hash@.subrange(0, n as int) =~= hash@);
            }
        }
        String::from_str(prefix)
    }
}

} // verus!
