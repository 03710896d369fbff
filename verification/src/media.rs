//! Media snapshots as reported by a player, and how competing players rank.

use vstd::prelude::*;

verus! {

/// Playback state of a media player.
#[derive(Debug, Clone, Copy, PartialEq, Eq, Structural)]
pub enum MediaStatus {
    Playing,
    Paused,
    Stopped,
}

/// The most recently observed state of a player.
#[derive(Debug, PartialEq, Eq)]
pub struct MediaInfo {
    pub title: String,
    pub artist: String,
    pub status: MediaStatus,
}

/// A snapshot as plain mathematical values.
pub struct MediaInfoView {
    pub title: Seq<char>,
    pub artist: Seq<char>,
    pub status: MediaStatus,
}

impl View for MediaInfo {
    type V = MediaInfoView;

    open spec fn view(&self) -> MediaInfoView {
        MediaInfoView { title: self.title@, artist: self.artist@, status: self.status }
    }
}

/// The snapshot that stands for "no player": empty texts, stopped.
pub open spec fn idle_media() -> MediaInfoView {
    MediaInfoView { title: Seq::empty(), artist: Seq::empty(), status: MediaStatus::Stopped }
}

impl Default for MediaInfo {
    fn default() -> (info: MediaInfo)
        ensures
            info@ == idle_media(),
    {
        MediaInfo { title: String::new(), artist: String::new(), status: MediaStatus::Stopped }
    }
}

impl Clone for MediaInfo {
    fn clone(&self) -> (copy: MediaInfo)
        ensures
            copy == *self,
    {
        MediaInfo {
            title: self.title.clone(),
            artist: self.artist.clone(),
            status: self.status,
        }
    }
}

impl MediaInfo {
    /// Whether two snapshots agree in title, artist and status.
    pub fn same_as(&self, other: &MediaInfo) -> (same: bool)
        ensures
            same == (self@ == other@),
    {
        self.title == other.title && self.artist == other.artist && self.status == other.status
    }
}

/// Rank of a status when several players compete: playing beats paused,
/// paused beats stopped.
pub open spec fn spec_status_rank(status: MediaStatus) -> int {
    match status {
        MediaStatus::Playing => 3,
        MediaStatus::Paused => 2,
        MediaStatus::Stopped => 1,
    }
}

/// The rank of a status: 3 for playing, 2 for paused, 1 for stopped.
pub fn status_rank(status: &MediaStatus) -> (rank: i32)
    ensures
        rank == spec_status_rank(*status),
{
    match status {
        MediaStatus::Playing => 3,
        MediaStatus::Paused => 2,
        MediaStatus::Stopped => 1,
    }
}

/// Whether `candidate` should replace `current` as the player to show.
pub fn is_better(candidate: &MediaInfo, current: &MediaInfo) -> (better: bool)
    ensures
        better == (spec_status_rank(candidate.status) > spec_status_rank(current.status)),
{
    status_rank(&candidate.status) > status_rank(&current.status)
}

/// `i` is the earliest entry of `players` that no other entry outranks.
pub open spec fn is_first_best(players: Seq<MediaInfo>, i: int) -> bool {
    &&& 0 <= i < players.len()
    &&& forall|j: int|
        0 <= j < players.len() ==> spec_status_rank(#[trigger] players[j].status)
            <= spec_status_rank(players[i].status)
    &&& forall|j: int|
        0 <= j < i ==> spec_status_rank(#[trigger] players[j].status) < spec_status_rank(
            players[i].status,
        )
}

/// At most one entry is the first best one.
pub proof fn lemma_first_best_unique(players: Seq<MediaInfo>, i: int, j: int)
    requires
        is_first_best(players, i),
        is_first_best(players, j),
    ensures
        i == j,
{
    if i < j {
        assert(spec_status_rank(players[i].status) < spec_status_rank(players[j].status));
    } else if j < i {
        assert(spec_status_rank(players[j].status) < spec_status_rank(players[i].status));
    }
}

/// Picks the snapshot to show among those of all players found: the
/// highest-ranking one, the earliest among equals, and the idle snapshot
/// when there is no player.
pub fn select_best(players: &Vec<MediaInfo>) -> (best: MediaInfo)
    ensures
        players@.len() == 0 ==> best@ == idle_media(),
        players@.len() > 0 ==> exists|i: int|
            is_first_best(players@, i) && best == #[trigger] players@[i],
{
    if players.len() == 0 {
        return MediaInfo::default();
    }
    let mut best: usize = 0;
    let mut k: usize = 1;
    while k < players.len()
        invariant
            1 <= k <= players.len(),
            is_first_best(players@.subrange(0, k as int), best as int),
        decreases players.len() - k,
    {
        let ghost before = players@.subrange(0, k as int);
        let ghost after = players@.subrange(0, k as int + 1);
        let ghost old_best = best;
        if is_better(&players[k], &players[best]) {
            best = k;
        }
        proof {
            assert forall|j: int| 0 <= j < after.len() implies spec_status_rank(
                #[trigger] after[j].status,
            ) <= spec_status_rank(after[best as int].status) by {
                if j < k {
                    assert(after[j] == before[j]);
                    assert(spec_status_rank(before[j].status) <= spec_status_rank(
                        before[old_best as int].status,
                    ));
                }
            }
            assert forall|j: int| 0 <= j < best implies spec_status_rank(
                #[trigger] after[j].status,
            ) < spec_status_rank(after[best as int].status) by {
                assert(after[j] == before[j]);
                if best == old_best {
                    assert(spec_status_rank(before[j].status) < spec_status_rank(
                        before[old_best as int].status,
                    ));
                } else {
                    assert(spec_status_rank(before[j].status) <= spec_status_rank(
                        before[old_best as int].status,
                    ));
                }
            }
        }
        k = k + 1;
    }
    assert(players@.subrange(0, k as int) == players@);
    players[best].clone()
}

} // verus!
