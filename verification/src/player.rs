//! The play queue: which song is current, how the queue follows a rebuilt
//! song list, and which songs to try when moving to the next or previous one.
//! Decoding and audio output stay with the caller, which reports back which
//! song it could start.
use vstd::prelude::*;
use vstd::multiset::Multiset;
use crate::song_query::SongWithFilters;

verus! {

broadcast use vstd::seq_lib::group_to_multiset_ensures;

/// How the current song fared when the queue was replaced.
#[derive(Debug, Clone, Copy, PartialEq, Eq)]
pub struct QueueSyncResult {
    pub current_index: Option<usize>,
    pub cleared_current_song: bool,
}

/// The outcome of trying to start songs: those that could not be loaded, and
/// whether one started.
#[derive(Debug, Clone, PartialEq, Eq)]
pub struct PlaybackAttempt {
    pub failed_song_ids: Vec<i32>,
    pub should_emit_track_changed: bool,
}

/// The first position in `songs` of the song with this id.
pub open spec fn first_position(songs: Seq<SongWithFilters>, id: i32) -> Option<int> {
    if exists|i: int|
        0 <= i < songs.len() && (#[trigger] songs[i]).song.id == id && forall|j: int|
            0 <= j < i ==> songs[j].song.id != id {
        Some(
            choose|i: int|
                0 <= i < songs.len() && (#[trigger] songs[i]).song.id == id && forall|j: int|
                    0 <= j < i ==> songs[j].song.id != id,
        )
    } else {
        None
    }
}

/// Where the previously current song stands in the new list.
pub open spec fn synced_index(current_song_id: Option<i32>, songs: Seq<SongWithFilters>) -> Option<
    int,
> {
    match current_song_id {
        Some(id) => first_position(songs, id),
        None => None,
    }
}

/// The first position of the song with this id.
fn position_of_id(songs: &[SongWithFilters], id: i32) -> (r: Option<usize>)
    ensures
        match first_position(songs@, id) {
            Some(i) => r == Some(i as usize),
            None => r is None,
        },
{
    let mut i: usize = 0;
    while i < songs.len()
        invariant
            i <= songs.len(),
            forall|j: int| 0 <= j < i ==> (#[trigger] songs@[j]).song.id != id,
        decreases songs.len() - i,
    {
        if songs[i].song.id == id {
            proof {
                let c = choose|c: int|
                    0 <= c < songs@.len() && (#[trigger] songs@[c]).song.id == id && forall|j: int|
                        0 <= j < c ==> songs@[j].song.id != id;
                assert(songs@[i as int].song.id == id);
                if c < i {
                } else if c > i {
                }
                assert(c == i);
            }
            return Some(i);
        }
        i = i + 1;
    }
    None
}

/// Finds the previously current song in a new song list: its first position
/// there, and whether it is gone.
pub fn resolve_queue_sync(current_song_id: Option<i32>, songs: &[SongWithFilters]) -> (r:
    QueueSyncResult)
    ensures
        match synced_index(current_song_id, songs@) {
            Some(i) => r.current_index == Some(i as usize),
            None => r.current_index is None,
        },
        r.cleared_current_song == (current_song_id is Some && r.current_index is None),
{
    let current_index = match current_song_id {
        Some(id) => position_of_id(songs, id),
        None => None,
    };
    QueueSyncResult {
        current_index,
        cleared_current_song: current_song_id.is_some() && current_index.is_none(),
    }
}

/// The indexes `0..len`, in increasing order.
pub open spec fn positions(len: nat) -> Seq<usize> {
    Seq::new(len, |i: int| i as usize)
}

/// Holds of every index but `current`.
pub open spec fn not_at(current: nat) -> spec_fn(usize) -> bool {
    |i: usize| i != current
}

/// The indexes `0..len` without `current`, in increasing order.
pub open spec fn others(len: nat, current: nat) -> Seq<usize> {
    positions(len).filter(not_at(current))
}

/// The positions after `current`, wrapping around past the end, without
/// `current` itself.
pub open spec fn next_rotation(len: nat, current: nat) -> Seq<usize> {
    Seq::new((len - 1) as nat, |k: int| ((current + k + 1) % (len as int)) as usize)
}

/// The positions before `current`, going backwards and wrapping around past
/// the start, without `current` itself.
pub open spec fn previous_rotation(len: nat, current: nat) -> Seq<usize> {
    Seq::new((len - 1) as nat, |k: int| ((current + len - (k + 1)) % (len as int)) as usize)
}

/// What moving to the previous song asks of the player.
#[derive(Debug, Clone, PartialEq, Eq)]
pub enum PreviousStep {
    /// Restart the current song from the beginning.
    Restart,
    /// Try these queue positions in order.
    Candidates(Vec<usize>),
}

/// A random index between 0 and `high`, both included, by `rand::random_range`.
#[verifier::external_body]
fn random_index_up_to(high: usize) -> (r: usize)
    ensures
        r <= high,
{
    rand::random_range(0..=high)
}

proof fn lemma_update_multiset<T>(s: Seq<T>, i: int, v: T)
    requires
        0 <= i < s.len(),
    ensures
        s.update(i, v).to_multiset() =~= s.to_multiset().remove(s[i]).insert(v),
{
    let t = s.update(i, v);
    assert(t.remove(i) =~= s.remove(i));
    assert(t.remove(i).to_multiset() =~= t.to_multiset().remove(v));
    assert(s.remove(i).to_multiset() =~= s.to_multiset().remove(s[i]));
    assert(t.to_multiset().count(v) > 0) by {
        assert(t[i] == v);
        assert(t.contains(v));
    }
}

proof fn lemma_swap_multiset<T>(s: Seq<T>, i: int, j: int)
    requires
        0 <= i < s.len(),
        0 <= j < s.len(),
    ensures
        s.update(i, s[j]).update(j, s[i]).to_multiset() =~= s.to_multiset(),
{
    let t = s.update(i, s[j]);
    lemma_update_multiset(s, i, s[j]);
    lemma_update_multiset(t, j, s[i]);
    if i != j {
        assert(t[j] == s[j]);
    }
    assert(s.to_multiset().count(s[i]) > 0) by {
        assert(s.contains(s[i]));
    }
    assert(s.to_multiset().count(s[j]) > 0) by {
        assert(s.contains(s[j]));
    }
}

/// Shuffles the positions into a uniformly random order, swapping each
/// position from the last down to the second with a random earlier or equal one.
fn shuffle_positions(v: Vec<usize>) -> (r: Vec<usize>)
    ensures
        r@.to_multiset() == v@.to_multiset(),
{
    let mut v = v;
    let ghost orig = v@;
    let mut i = v.len();
    while i > 1
        invariant
            i <= v.len(),
            v@.to_multiset() == orig.to_multiset(),
        decreases i,
    {
        i = i - 1;
        let j = random_index_up_to(i);
        let a = v[i];
        let b = v[j];
        proof {
            lemma_swap_multiset(v@, i as int, j as int);
        }
        v[i] = b;
        v[j] = a;
    }
    v
}

/// The queue of songs the player plays from.
pub struct PlayQueue {
    queue: Vec<SongWithFilters>,
    current_index: Option<usize>,
    repeat: bool,
    shuffle: bool,
}

impl PlayQueue {
    #[verifier::type_invariant]
    spec fn index_in_queue(self) -> bool {
        match self.current_index {
            Some(i) => i < self.queue.len(),
            None => true,
        }
    }

    /// The songs of the queue.
    pub closed spec fn songs(&self) -> Seq<SongWithFilters> {
        self.queue@
    }

    /// The position of the current song.
    pub closed spec fn current(&self) -> Option<usize> {
        self.current_index
    }

    /// Whether the current song repeats.
    pub closed spec fn repeats(&self) -> bool {
        self.repeat
    }

    /// Whether the next song is picked at random.
    pub closed spec fn shuffles(&self) -> bool {
        self.shuffle
    }

    /// An empty queue, with repeat and shuffle off.
    pub fn new() -> (r: PlayQueue)
        ensures
            r.songs() == Seq::<SongWithFilters>::empty(),
            r.current() is None,
            !r.repeats(),
            !r.shuffles(),
    {
        PlayQueue { queue: Vec::new(), current_index: None, repeat: false, shuffle: false }
    }

    pub fn current_index(&self) -> (r: Option<usize>)
        ensures
            r == self.current(),
            r matches Some(i) ==> i < self.songs().len(),
    {
        proof {
            use_type_invariant(self);
        }
        self.current_index
    }

    pub fn queue(&self) -> (r: &[SongWithFilters])
        ensures
            r@ == self.songs(),
    {
        self.queue.as_slice()
    }

    pub fn len(&self) -> (r: usize)
        ensures
            r == self.songs().len(),
    {
        self.queue.len()
    }

    pub fn is_repeat(&self) -> (r: bool)
        ensures
            r == self.repeats(),
    {
        self.repeat
    }

    pub fn is_shuffle(&self) -> (r: bool)
        ensures
            r == self.shuffles(),
    {
        self.shuffle
    }

    pub fn set_repeat(&mut self, flag: bool)
        ensures
            final(self).repeats() == flag,
            final(self).shuffles() == old(self).shuffles(),
            final(self).songs() == old(self).songs(),
            final(self).current() == old(self).current(),
    {
        proof {
            use_type_invariant(&*self);
        }
        self.repeat = flag;
    }

    pub fn set_shuffle(&mut self, flag: bool)
        ensures
            final(self).shuffles() == flag,
            final(self).repeats() == old(self).repeats(),
            final(self).songs() == old(self).songs(),
            final(self).current() == old(self).current(),
    {
        proof {
            use_type_invariant(&*self);
        }
        self.shuffle = flag;
    }

    /// The current song, if the queue holds one.
    pub fn current_song(&self) -> (r: Option<&SongWithFilters>)
        ensures
            match self.current() {
                Some(i) => r == Some(&self.songs()[i as int]),
                None => r is None,
            },
    {
        proof {
            use_type_invariant(self);
        }
        if self.queue.len() == 0 {
            return None;
        }
        match self.current_index {
            Some(i) => Some(&self.queue[i]),
            None => None,
        }
    }

    /// The id of the current song, if the queue holds one.
    pub fn current_song_id(&self) -> (r: Option<i32>)
        ensures
            match self.current() {
                Some(i) => r == Some(self.songs()[i as int].song.id),
                None => r is None,
            },
    {
        match self.current_song() {
            Some(s) => Some(s.song.id),
            None => None,
        }
    }

    /// Replaces the songs of the queue. The current song stays current at its
    /// first position in the new list; when it is not there, or the new list
    /// is empty, nothing is current.
    pub fn set_queue(&mut self, songs: Vec<SongWithFilters>) -> (r: QueueSyncResult)
        ensures
            final(self).songs() == songs@,
            final(self).repeats() == old(self).repeats(),
            final(self).shuffles() == old(self).shuffles(),
            final(self).current() == r.current_index,
            match synced_index(
                match old(self).current() {
                    Some(i) => Some(old(self).songs()[i as int].song.id),
                    None => None,
                },
                songs@,
            ) {
                Some(i) => r.current_index == Some(i as usize),
                None => r.current_index is None,
            },
            r.cleared_current_song == (old(self).current() is Some && r.current_index is None),
    {
        proof {
            use_type_invariant(&*self);
        }
        let current_song_id = self.current_song_id();
        self.current_index = None;
        self.queue = songs;
        if self.queue.len() == 0 {
            return QueueSyncResult {
                current_index: None,
                cleared_current_song: current_song_id.is_some(),
            };
        }
        let sync = resolve_queue_sync(current_song_id, self.queue.as_slice());
        proof {

        }
        self.current_index = sync.current_index;
        sync
    }

    /// Makes the song at `index` current, once the player has started it.
    pub fn start_at(&mut self, index: usize)
        requires
            index < old(self).songs().len(),
        ensures
            final(self).current() == Some(index),
            final(self).songs() == old(self).songs(),
            final(self).repeats() == old(self).repeats(),
            final(self).shuffles() == old(self).shuffles(),
    {
        self.current_index = Some(index);
    }

    /// The song to try for playing the song at `index`: none when `index` is
    /// outside the queue, or when it is already current and `ignore_if_same`.
    pub fn play_song_at_candidates(&self, index: usize, ignore_if_same: bool) -> (r: Vec<usize>)
        ensures
            (index >= self.songs().len() || (ignore_if_same && self.current() == Some(index)))
                ==> r@ == Seq::<usize>::empty(),
            !(index >= self.songs().len() || (ignore_if_same && self.current() == Some(index)))
                ==> r@ == seq![index],
    {
        if index >= self.queue.len() {
            return Vec::new();
        }
        if ignore_if_same && self.current_index == Some(index) {
            return Vec::new();
        }
        let mut v = Vec::new();
        v.push(index);
        v
    }

    /// The position to resume at when a queue is loaded with a saved position:
    /// the saved one, or the last when the saved one is past the end.
    pub fn saved_start_index(&self, saved_index: usize) -> (r: Option<usize>)
        ensures
            self.songs().len() == 0 ==> r is None,
            self.songs().len() > 0 ==> r == Some(
                if saved_index < self.songs().len() {
                    saved_index
                } else {
                    (self.songs().len() - 1) as usize
                },
            ),
    {
        if self.queue.len() == 0 {
            None
        } else if saved_index < self.queue.len() - 1 {
            Some(saved_index)
        } else {
            Some(self.queue.len() - 1)
        }
    }

    /// The songs to try, in order, when moving to the next one. With an empty
    /// queue nothing is tried; with repeat on, the current song again (or
    /// nothing when none is current). With no current song, every position in
    /// order. With shuffle on and more than one song, every other position in
    /// random order; otherwise the positions after the current one, wrapping
    /// around, and the current one itself when it is the only song.
    pub fn next_song_candidates(&self) -> (r: Vec<usize>)
        ensures
            self.songs().len() == 0 ==> r@ == Seq::<usize>::empty(),
            self.songs().len() > 0 && self.repeats() ==> r@ == match self.current() {
                Some(c) => seq![c],
                None => Seq::<usize>::empty(),
            },
            self.songs().len() > 0 && !self.repeats() ==> match self.current() {
                None => r@ == positions(self.songs().len()),
                Some(c) => if self.shuffles() && self.songs().len() > 1 {
                    r@.to_multiset() == others(self.songs().len(), c as nat).to_multiset()
                } else if self.songs().len() == 1 {
                    r@ == seq![c]
                } else {
                    r@ == next_rotation(self.songs().len(), c as nat)
                },
            },
    {
        proof {
            use_type_invariant(self);
        }
        let len = self.queue.len();
        if len == 0 {
            return Vec::new();
        }
        if self.repeat {
            let mut v = Vec::new();
            match self.current_index {
                Some(c) => {
                    v.push(c);
                },
                None => {},
            }
            return v;
        }
        match self.current_index {
            None => {
                let mut v: Vec<usize> = Vec::new();
                let mut i: usize = 0;
                while i < len
                    invariant
                        i <= len,
                        v@ == positions(i as nat),
                    decreases len - i,
                {
                    v.push(i);
                    i = i + 1;
                    assert(v@ =~= positions(i as nat));
                }
                v
            },
            Some(current) => {
                if self.shuffle && len > 1 {
                    let mut v: Vec<usize> = Vec::new();
                    let mut i: usize = 0;
                    while i < len
                        invariant
                            i <= len,
                            v@ == positions(i as nat).filter(not_at(current as nat)),
                        decreases len - i,
                    {
                        let ghost before = positions(i as nat);
                        let ghost after = positions((i + 1) as nat);
                        proof {
                            assert(after =~= before.push(i));
                            before.lemma_filter_push(i, not_at(current as nat));
                        }
                        if i != current {
                            v.push(i);
                        }
                        i = i + 1;
                    }
                    shuffle_positions(v)
                } else if len == 1 {
                    let mut v = Vec::new();
                    v.push(current);
                    v
                } else {
                    let mut v: Vec<usize> = Vec::new();
                    let mut k: usize = 0;
                    while k < len - 1
                        invariant
                            len > 1,
                            current < len,
                            k <= len - 1,
                            v@ == Seq::new(
                                k as nat,
                                |j: int| ((current + j + 1) % (len as int)) as usize,
                            ),
                        decreases len - 1 - k,
                    {
                        let offset = k + 1;
                        let next = if offset < len - current {
                            current + offset
                        } else {
                            offset - (len - current)
                        };
                        proof {
                            if current + offset < len {
                                assert((current + k + 1) % (len as int) == current + offset)
                                    by (nonlinear_arith)
                                    requires
                                        current + offset < len,
                                        offset == k + 1,
                                ;
                            } else {
                                assert((current + k + 1) % (len as int) == current + offset - len)
                                    by (nonlinear_arith)
                                    requires
                                        current + offset >= len,
                                        current < len,
                                        offset < len,
                                        offset == k + 1,
                                ;
                            }
                        }
                        v.push(next);
                        k = k + 1;
                        assert(v@ =~= Seq::new(
                            k as nat,
                            |j: int| ((current + j + 1) % (len as int)) as usize,
                        ));
                    }
                    assert(v@ =~= next_rotation(self.queue@.len(), current as nat));
                    v
                }
            },
        }
    }

    /// What moving to the previous song does. With an empty queue nothing is
    /// tried; with repeat on, the current song restarts from the beginning.
    /// With no current song, every position in order; with only one song, that
    /// song; otherwise the positions before the current one, going backwards
    /// and wrapping around.
    pub fn previous_song_step(&self) -> (r: PreviousStep)
        ensures
            self.songs().len() == 0 ==> (r matches PreviousStep::Candidates(v) && v@
                == Seq::<usize>::empty()),
            self.songs().len() > 0 && self.repeats() ==> r is Restart,
            self.songs().len() > 0 && !self.repeats() ==> (r matches PreviousStep::Candidates(v)
                && match self.current() {
                None => v@ == positions(self.songs().len()),
                Some(c) => if self.songs().len() == 1 {
                    v@ == seq![c]
                } else {
                    v@ == previous_rotation(self.songs().len(), c as nat)
                },
            }),
    {
        proof {
            use_type_invariant(self);
        }
        let len = self.queue.len();
        if len == 0 {
            return PreviousStep::Candidates(Vec::new());
        }
        if self.repeat {
            return PreviousStep::Restart;
        }
        match self.current_index {
            None => {
                let mut v: Vec<usize> = Vec::new();
                let mut i: usize = 0;
                while i < len
                    invariant
                        i <= len,
                        v@ == positions(i as nat),
                    decreases len - i,
                {
                    v.push(i);
                    i = i + 1;
                    assert(v@ =~= positions(i as nat));
                }
                PreviousStep::Candidates(v)
            },
            Some(current) => {
                if len == 1 {
                    let mut v = Vec::new();
                    v.push(current);
                    return PreviousStep::Candidates(v);
                }
                let mut v: Vec<usize> = Vec::new();
                let mut k: usize = 0;
                while k < len - 1
                    invariant
                        len > 1,
                        current < len,
                        k <= len - 1,
                        v@ == Seq::new(
                            k as nat,
                            |j: int| ((current + len - (j + 1)) % (len as int)) as usize,
                        ),
                    decreases len - 1 - k,
                {
                    let offset = k + 1;
                    let prev = if offset <= current {
                        current - offset
                    } else {
                        current + (len - offset)
                    };
                    proof {
                        if offset <= current {
                            assert((current + len - (k + 1)) % (len as int) == current - offset)
                                by (nonlinear_arith)
                                requires
                                    offset <= current,
                                    current < len,
                                    offset == k + 1,
                            ;
                        } else {
                            assert((current + len - (k + 1)) % (len as int) == current + len
                                - offset) by (nonlinear_arith)
                                requires
                                    offset > current,
                                    offset < len,
                                    offset == k + 1,
                            ;
                        }
                    }
                    v.push(prev);
                    k = k + 1;
                    assert(v@ =~= Seq::new(
                        k as nat,
                        |j: int| ((current + len - (j + 1)) % (len as int)) as usize,
                    ));
                }
                assert(v@ =~= previous_rotation(self.queue@.len(), current as nat));
                PreviousStep::Candidates(v)
            },
        }
    }
}

} // verus!

verus! {

/// The candidates left once those outside a queue of `len` songs are passed
/// over: the sequence from the first one inside the queue on.
pub open spec fn skip_outside(pending: Seq<usize>, len: nat) -> Seq<usize>
    decreases pending.len(),
{
    if pending.len() == 0 || pending[0] < len {
        pending
    } else {
        skip_outside(pending.drop_first(), len)
    }
}

/// A run through candidate positions, trying each until one song starts. The
/// caller loads each song the run hands out and reports whether it failed.
pub struct CandidateRun {
    candidates: Vec<usize>,
    next: usize,
    failed: Vec<i32>,
}

impl CandidateRun {
    /// The candidates not yet handed out, in order.
    pub closed spec fn pending(&self) -> Seq<usize> {
        if self.next <= self.candidates.len() {
            self.candidates@.subrange(self.next as int, self.candidates@.len() as int)
        } else {
            Seq::empty()
        }
    }

    /// The ids of the songs that failed to load, in the order they were tried.
    pub closed spec fn failed_ids(&self) -> Seq<i32> {
        self.failed@
    }

    /// A run over these candidates, with no failure yet.
    pub fn new(candidates: Vec<usize>) -> (r: CandidateRun)
        ensures
            r.pending() == candidates@,
            r.failed_ids() == Seq::<i32>::empty(),
    {
        let r = CandidateRun { candidates, next: 0, failed: Vec::new() };
        assert(r.candidates@.subrange(0, r.candidates@.len() as int) =~= r.candidates@);
        r
    }

    /// Hands out the next candidate inside a queue of `len` songs, passing
    /// over those outside it; `None` once no candidate is left.
    pub fn next_candidate(&mut self, len: usize) -> (r: Option<usize>)
        ensures
            final(self).failed_ids() == old(self).failed_ids(),
            ({
                let rest = skip_outside(old(self).pending(), len as nat);
                if rest.len() == 0 {
                    r is None && final(self).pending() == rest
                } else {
                    r == Some(rest[0]) && final(self).pending() == rest.drop_first()
                }
            }),
    {
        if self.next > self.candidates.len() {
            return None;
        }
        let ghost start = self.pending();
        while self.next < self.candidates.len() && self.candidates[self.next] >= len
            invariant
                self.next <= self.candidates.len(),
                skip_outside(self.pending(), len as nat) == skip_outside(start, len as nat),
                self.failed@ == old(self).failed@,
            decreases self.candidates.len() - self.next,
        {
            let ghost before = self.pending();
            assert(before.drop_first() =~= self.candidates@.subrange(
                self.next + 1,
                self.candidates@.len() as int,
            ));
            self.next = self.next + 1;
        }
        proof {
            assert(skip_outside(self.pending(), len as nat) == self.pending());
        }
        if self.next < self.candidates.len() {
            let index = self.candidates[self.next];
            let ghost before = self.pending();
            self.next = self.next + 1;
            assert(before.drop_first() =~= self.pending());
            Some(index)
        } else {
            None
        }
    }

    /// Notes that the song with this id could not be loaded.
    pub fn record_failure(&mut self, song_id: i32)
        ensures
            final(self).failed_ids() == old(self).failed_ids().push(song_id),
            final(self).pending() == old(self).pending(),
    {
        self.failed.push(song_id);
    }

    /// The outcome once a song started: the failures before it, and a track
    /// change to announce.
    pub fn started(self) -> (r: PlaybackAttempt)
        ensures
            r.failed_song_ids@ == self.failed_ids(),
            r.should_emit_track_changed,
    {
        PlaybackAttempt { failed_song_ids: self.failed, should_emit_track_changed: true }
    }

    /// The outcome once every candidate failed: the failures, and no track
    /// change.
    pub fn exhausted(self) -> (r: PlaybackAttempt)
        ensures
            r.failed_song_ids@ == self.failed_ids(),
            !r.should_emit_track_changed,
    {
        PlaybackAttempt { failed_song_ids: self.failed, should_emit_track_changed: false }
    }
}

} // verus!

verus! {

/// Some song of `songs` has this id.
pub open spec fn has_song(songs: Seq<SongWithFilters>, id: i32) -> bool {
    exists|i: int| 0 <= i < songs.len() && (#[trigger] songs[i]).song.id == id
}

proof fn lemma_first_below(songs: Seq<SongWithFilters>, id: i32, k: int)
    requires
        0 <= k < songs.len(),
        songs[k].song.id == id,
    ensures
        first_position(songs, id) is Some,
    decreases k,
{
    if forall|j: int| 0 <= j < k ==> songs[j].song.id != id {
        assert(0 <= k < songs.len() && (#[trigger] songs[k]).song.id == id && forall|j: int|
            0 <= j < k ==> songs[j].song.id != id);
    } else {
        let j = choose|j: int| 0 <= j < k && songs[j].song.id == id;
        lemma_first_below(songs, id, j);
    }
}

/// When the song list is rebuilt, the current song stays current exactly when
/// its id is still in the list, and then at the first position that holds it.
pub proof fn lemma_sync_keeps_current_song(id: i32, songs: Seq<SongWithFilters>)
    ensures
        synced_index(Some(id), songs) is Some <==> has_song(songs, id),
        synced_index(Some(id), songs) matches Some(i) ==> 0 <= i < songs.len()
            && songs[i].song.id == id && forall|j: int| 0 <= j < i ==> songs[j].song.id != id,
{
    if has_song(songs, id) {
        let k = choose|i: int| 0 <= i < songs.len() && (#[trigger] songs[i]).song.id == id;
        lemma_first_below(songs, id, k);
    }
}

/// Under shuffle, the songs tried next are every position of the queue but
/// the current one, each exactly once.
pub proof fn lemma_shuffle_tries_every_other_song_once(len: nat, current: nat, x: usize)
    requires
        len <= usize::MAX,
    ensures
        others(len, current).to_multiset().count(x) == if x < len && x != current {
            1nat
        } else {
            0nat
        },
    decreases len,
{
    if len == 0 {
        assert(positions(0) =~= Seq::<usize>::empty());
        assert(others(0, current) =~= Seq::<usize>::empty());
    } else {
        let n = (len - 1) as nat;
        lemma_shuffle_tries_every_other_song_once(n, current, x);
        assert(positions(len) =~= positions(n).push(n as usize));
        positions(n).lemma_filter_push(n as usize, not_at(current));
        if n != current {
            assert(others(len, current) == others(n, current).push(n as usize));
        } else {
            assert(others(len, current) == others(n, current));
        }
    }
}

/// Without shuffle, the songs tried next are every position but the current
/// one, each once, in queue positions that exist.
pub proof fn lemma_next_rotation_tries_every_other_song(len: nat, current: nat)
    requires
        1 < len <= usize::MAX,
        current < len,
    ensures
        next_rotation(len, current).len() == len - 1,
        forall|k: int|
            0 <= k < len - 1 ==> #[trigger] next_rotation(len, current)[k] < len
                && next_rotation(len, current)[k] != current,
        next_rotation(len, current).no_duplicates(),
        forall|x: usize| x < len && x != current ==> #[trigger] next_rotation(len, current).contains(x),
{
    let r = next_rotation(len, current);
    assert forall|k: int| 0 <= k < len - 1 implies #[trigger] r[k] < len && r[k] != current
        && (r[k] == if current + k + 1 < len { current + k + 1 } else { current + k + 1 - len }) by {
        if current + k + 1 < len {
            assert((current + k + 1) % (len as int) == current + k + 1) by (nonlinear_arith)
                requires
                    0 <= current + k + 1 < len,
            ;
        } else {
            assert((current + k + 1) % (len as int) == current + k + 1 - len) by (nonlinear_arith)
                requires
                    len <= current + k + 1 < 2 * len,
            ;
        }
    }
    assert forall|x: usize| x < len && x != current implies #[trigger] r.contains(x) by {
        let k: int = if x > current { x - current - 1 } else { x + len - current - 1 };
        assert(r[k] < len);
        assert(r[k] == x);
    }
}

/// Moving to the previous song tries the same positions as moving to the
/// next one, in the reverse order.
pub proof fn lemma_previous_reverses_next(len: nat, current: nat)
    requires
        1 < len <= usize::MAX,
        current < len,
    ensures
        previous_rotation(len, current).len() == next_rotation(len, current).len(),
        forall|k: int|
            0 <= k < len - 1 ==> #[trigger] previous_rotation(len, current)[k] == next_rotation(
                len,
                current,
            )[len - 2 - k],
{
    assert forall|k: int| 0 <= k < len - 1 implies #[trigger] previous_rotation(len, current)[k]
        == next_rotation(len, current)[len - 2 - k] by {
        let j = len - 2 - k;
        assert(current + len - (k + 1) == current + j + 1);
    }
}

/// Moving to the next song and then to the previous one comes back to the
/// song one started from, and so does the other way round.
pub proof fn lemma_previous_undoes_next(len: nat, current: nat)
    requires
        1 < len <= usize::MAX,
        current < len,
    ensures
        previous_rotation(len, next_rotation(len, current)[0] as nat)[0] == current,
        next_rotation(len, previous_rotation(len, current)[0] as nat)[0] == current,
{
    let n = next_rotation(len, current)[0];
    let p = previous_rotation(len, current)[0];
    if current + 1 < len {
        assert((current + 1) as int % (len as int) == current + 1) by (nonlinear_arith)
            requires
                0 <= current + 1 < len,
        ;
        assert(n == current + 1);
    } else {
        assert((current + 1) as int % (len as int) == 0) by (nonlinear_arith)
            requires
                current + 1 == len,
        ;
        assert(n == 0);
    }
    assert((n + len - 1) % (len as int) == current) by (nonlinear_arith)
        requires
            n == (current + 1) as int % (len as int),
            current < len,
            1 < len,
            n < len,
            (n == current + 1 || (n == 0 && current + 1 == len)),
    ;
    if current >= 1 {
        assert((current + len - 1) % (len as int) == current - 1) by (nonlinear_arith)
            requires
                1 <= current < len,
        ;
    } else {
        assert((current + len - 1) % (len as int) == len - 1) by (nonlinear_arith)
            requires
                current == 0,
                1 < len,
        ;
    }
    assert((p + 1) % (len as int) == current) by (nonlinear_arith)
        requires
            (current >= 1 && p == current - 1) || (current == 0 && p == len - 1),
            current < len,
            1 < len,
    ;
}

} // verus!
