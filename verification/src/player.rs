//! The playback engine: a single timeline of decoded samples shared by all
//! tracks, a sliding window of recently encoded frames for late joiners,
//! and lossy fan-out to listener channels.
use vstd::prelude::*;
use crate::{granule_to_ms, granule_ms, spec_current_ms, BUFFER_SIZE_MS};
use crate::pages::{spec_all_segments, spec_packets, spec_last_nonzero_granule, OggPage};

verus! {

/// Cap on the headstart window, in interleaved samples: `BUFFER_SIZE_MS`
/// worth of 48 kHz stereo audio.
pub const MAX_HEADSTART_BUFFER_SIZE: usize = BUFFER_SIZE_MS / 1000 * 48_000 * 2;

/// The most samples per channel one encoded frame may carry (120 ms at
/// 48 kHz).
pub const MAX_FRAME_SAMPLES: usize = 5760;

/// The first eight bytes of a stream's identity header packet, "OpusHead".
pub const OPUS_HEAD_MAGIC: [u8; 8] = [0x4F, 0x70, 0x75, 0x73, 0x48, 0x65, 0x61, 0x64];

/// One frame handed to listeners: encoded bytes and the absolute sample
/// count at the frame's end.
#[derive(Debug, Clone)]
pub enum OpusPlayerEvent {
    AudioData { raw_opus_data: Vec<u8>, granule_position: u64 },
}

/// The engine's clock readings: where the current track started and what a
/// listener is hearing now, both in milliseconds of the global timeline.
#[derive(Debug, Clone)]
pub struct TimeData {
    pub start_time_ms: u64,
    pub current_time_ms: u64,
}

/// What is known of the track now playing.
#[derive(Debug, Clone)]
pub struct ActiveFileMetadata {
    pub id: u64,
    pub start_granule_position: u64,
    pub title: String,
    pub author: String,
    pub image: Option<String>,
    pub duration_ms: u64,
}

/// How one track's playback ended, surfaced to the caller that started it.
pub enum PlaybackResult {
    Finished,
    Interrupted,
    Error(String),
}

/// One already-encoded frame cached in the headstart window, with its
/// length in samples per channel.
#[derive(Debug, Clone)]
pub struct HeadstartFrame {
    pub data: Vec<u8>,
    pub samples: usize,
}

/// One track's packet stream and the id that ties it to the engine's
/// current track.
#[derive(Debug)]
pub struct PlaybackState {
    pub packets: Vec<Vec<u8>>,
    pub next_packet: usize,
    pub file_id: u64,
}

/// What the engine decides for the next packet of a track.
#[derive(Debug)]
pub enum PacketPlan {
    /// No track is active; the caller reports an error.
    NoTrack,
    /// The packet stream is exhausted.
    Eof,
    /// A newer track pre-empted this one.
    Interrupted,
    /// A stream-level header packet, not to be re-broadcast.
    Skip,
    /// An audio packet to decode and re-encode.
    Decode(Vec<u8>),
}

/// What one processed frame asks of the driving loop.
#[derive(Debug)]
pub struct FrameOutcome {
    /// How long to sleep to keep production `BUFFER_SIZE_MS` ahead of the
    /// wall clock; 0 while the headstart window is still filling.
    pub sleep_ms: u64,
    /// The positions of the listeners evicted by this frame's fan-out.
    pub dropped: Vec<usize>,
}

/// The headstart cache as mathematical values: each frame's bytes and its
/// length in samples per channel.
pub open spec fn hs_view(frames: Seq<HeadstartFrame>) -> Seq<(Seq<u8>, int)> {
    frames.map_values(|f: HeadstartFrame| (f.data@, f.samples as int))
}

/// Samples per channel held in the cache.
pub open spec fn hs_total(v: Seq<(Seq<u8>, int)>) -> int
    decreases v.len(),
{
    if v.len() == 0 {
        0
    } else {
        v[0].1 + hs_total(v.drop_first())
    }
}

pub proof fn lemma_hs_total_push(v: Seq<(Seq<u8>, int)>, f: (Seq<u8>, int))
    ensures
        hs_total(v.push(f)) == hs_total(v) + f.1,
    decreases v.len(),
{
    if v.len() == 0 {
        assert(v.push(f).drop_first() =~= Seq::<(Seq<u8>, int)>::empty());
        assert(hs_total(v.push(f).drop_first()) == 0);
        assert(v.push(f)[0] == f);
        assert(hs_total(v.push(f)) == f.1 + 0);
    } else {
        assert(v.push(f).drop_first() =~= v.drop_first().push(f));
        lemma_hs_total_push(v.drop_first(), f);
    }
}

/// Drop whole frames from the front until the cache fits its cap, advancing
/// the base granule by each dropped frame's samples.
pub open spec fn spec_trim(v: Seq<(Seq<u8>, int)>, base: int) -> (Seq<(Seq<u8>, int)>, int)
    decreases v.len(),
{
    if v.len() == 0 || 2 * hs_total(v) <= MAX_HEADSTART_BUFFER_SIZE {
        (v, base)
    } else {
        spec_trim(v.drop_first(), base + v[0].1)
    }
}

/// The listeners kept after one fan-out: those of the first `n` whose
/// position is not among the dropped, in their original order.
pub open spec fn spec_retained<T>(s: Seq<T>, drops: Seq<usize>, n: int) -> Seq<T>
    decreases n,
{
    if n <= 0 {
        Seq::empty()
    } else {
        let p = spec_retained(s, drops, n - 1);
        if drops.contains((n - 1) as usize) {
            p
        } else {
            p.push(s[n - 1])
        }
    }
}

/// The engine's whole state: one writer mutates it, everyone else reads
/// snapshots through messages.
pub struct OpusPlayer {
    /// The wall-clock reference set when the first track ever starts; never
    /// reset afterwards.
    pub start_instant: Option<std::time::Instant>,
    /// The sliding window of recently encoded frames for late joiners.
    pub headstart_buffer: Vec<HeadstartFrame>,
    /// The granule position at which the window's first cached frame begins.
    pub headstart_granule_position: u64,
    /// One bounded channel per connected listener.
    pub listeners: Vec<tokio::sync::mpsc::Sender<OpusPlayerEvent>>,
    /// Total samples per channel decoded across all tracks.
    pub granule_position: u64,
    /// The track now playing, if any.
    pub active_file: Option<ActiveFileMetadata>,
    /// The directory of the last file started.
    pub current_playlist_path: Option<String>,
}

impl OpusPlayer {
    /// The engine's invariant: the headstart window never exceeds its cap,
    /// it ends exactly at the current granule position, every cached frame
    /// is a real frame, and the active track began within the timeline.
    pub open spec fn wf(&self) -> bool {
        &&& 2 * hs_total(hs_view(self.headstart_buffer@)) <= MAX_HEADSTART_BUFFER_SIZE
        &&& self.headstart_granule_position + hs_total(hs_view(self.headstart_buffer@))
            == self.granule_position
        &&& forall|i: int|
            0 <= i < self.headstart_buffer@.len() ==> 1 <= (
            #[trigger] self.headstart_buffer@[i]).samples <= MAX_FRAME_SAMPLES
        &&& match self.active_file {
            Some(m) => m.start_granule_position <= self.granule_position && m.id >= 1,
            None => true,
        }
    }

    pub fn new() -> (r: Self)
        ensures
            r.start_instant is None,
            r.headstart_buffer@.len() == 0,
            r.headstart_granule_position == 0,
            r.listeners@.len() == 0,
            r.granule_position == 0,
            r.active_file is None,
            r.current_playlist_path is None,
            r.wf(),
    {
        let r = Self {
            start_instant: None,
            headstart_buffer: Vec::new(),
            headstart_granule_position: 0,
            listeners: Vec::new(),
            granule_position: 0,
            active_file: None,
            current_playlist_path: None,
        };
        proof {
            assert(hs_view(r.headstart_buffer@) =~= Seq::<(Seq<u8>, int)>::empty());
        }
        r
    }

    /// A snapshot of the current track's metadata.
    pub fn get_metadata(&self) -> (r: Option<ActiveFileMetadata>)
        ensures
            r == self.active_file,
    {
        match &self.active_file {
            None => None,
            Some(m) => Some(
                ActiveFileMetadata {
                    id: m.id,
                    start_granule_position: m.start_granule_position,
                    title: m.title.clone(),
                    author: m.author.clone(),
                    image: match &m.image {
                        None => None,
                        Some(u) => Some(u.clone()),
                    },
                    duration_ms: m.duration_ms,
                },
            ),
        }
    }

    /// The directory of the last file started.
    pub fn get_playlist_path(&self) -> (r: Option<String>)
        ensures
            r == self.current_playlist_path,
    {
        match &self.current_playlist_path {
            None => None,
            Some(p) => Some(p.clone()),
        }
    }

    /// Where the current track started and what a listener hears now, on
    /// the global timeline. The current time sits `BUFFER_SIZE_MS` behind
    /// production, which runs that far ahead of the wall clock.
    pub fn get_stream_time_data(&self) -> (r: TimeData)
        ensures
            match self.active_file {
                None => r.start_time_ms == 0 && r.current_time_ms == 0,
                Some(m) => r.start_time_ms == granule_to_ms(m.start_granule_position)
                    && r.current_time_ms == spec_current_ms(self.granule_position),
            },
    {
        let m = match &self.active_file {
            Some(f) => f,
            None => {
                return TimeData { start_time_ms: 0, current_time_ms: 0 };
            },
        };
        let start_time_ms = granule_ms(m.start_granule_position);
        let produced_ms = granule_ms(self.granule_position);
        let current_time_ms = if produced_ms >= BUFFER_SIZE_MS as u64 {
            produced_ms - BUFFER_SIZE_MS as u64
        } else {
            0
        };
        TimeData { start_time_ms, current_time_ms }
    }

    /// Add one listener channel; it receives every frame published from now
    /// on until a send to it fails.
    pub fn add_listener(&mut self, listener: tokio::sync::mpsc::Sender<OpusPlayerEvent>)
        ensures
            final(self).listeners@ == old(self).listeners@.push(listener),
            final(self).start_instant == old(self).start_instant,
            final(self).headstart_buffer == old(self).headstart_buffer,
            final(self).headstart_granule_position == old(self).headstart_granule_position,
            final(self).granule_position == old(self).granule_position,
            final(self).active_file == old(self).active_file,
            final(self).current_playlist_path == old(self).current_playlist_path,
            old(self).wf() ==> final(self).wf(),
    {
        self.listeners.push(listener);
    }

    /// How many listeners are currently connected.
    pub fn listener_count(&self) -> (r: usize)
        ensures
            r == self.listeners@.len(),
    {
        self.listeners.len()
    }

    /// Samples per channel currently cached in the headstart window.
    pub fn headstart_total(&self) -> (r: usize)
        requires
            self.wf(),
        ensures
            r == hs_total(hs_view(self.headstart_buffer@)),
    {
        let ghost v = hs_view(self.headstart_buffer@);
        let mut sum: usize = 0;
        let mut i: usize = 0;
        proof {
            assert(v.take(0) =~= Seq::<(Seq<u8>, int)>::empty());
        }
        while i < self.headstart_buffer.len()
            invariant
                self.wf(),
                v == hs_view(self.headstart_buffer@),
                0 <= i <= v.len(),
                sum == hs_total(v.take(i as int)),
                sum <= MAX_HEADSTART_BUFFER_SIZE,
            decreases v.len() - i,
        {
            proof {
                assert(v.take(i + 1) =~= v.take(i as int).push(v[i as int]));
                lemma_hs_total_push(v.take(i as int), v[i as int]);
                lemma_hs_total_split(v, i + 1);
                lemma_hs_total_nonneg_tail(v, i + 1);
                assert(v[i as int].1 == self.headstart_buffer@[i as int].samples as int);
            }
            sum += self.headstart_buffer[i].samples;
            i += 1;
        }
        proof {
            assert(v.take(v.len() as int) =~= v);
        }
        sum
    }

    /// Send one frame to every listener without blocking, and evict every
    /// listener whose send failed before anything further is published: the
    /// kept listeners are exactly the others, in their original order.
    pub fn publish_frame(&mut self, data: &Vec<u8>, granule: u64) -> (dropped: Vec<usize>)
        ensures
            final(self).listeners@ == spec_retained(
                old(self).listeners@,
                dropped@,
                old(self).listeners@.len() as int,
            ),
            forall|k: int| 0 <= k < dropped@.len() ==> (#[trigger] dropped@[k]) < old(
                self,
            ).listeners@.len(),
            final(self).start_instant == old(self).start_instant,
            final(self).headstart_buffer == old(self).headstart_buffer,
            final(self).headstart_granule_position == old(self).headstart_granule_position,
            final(self).granule_position == old(self).granule_position,
            final(self).active_file == old(self).active_file,
            final(self).current_playlist_path == old(self).current_playlist_path,
    {
        let ghost orig = self.listeners@;
        let mut dropped: Vec<usize> = Vec::new();
        let mut i: usize = 0;
        while i < self.listeners.len()
            invariant
                *self == *old(self),
                orig == self.listeners@,
                0 <= i <= orig.len(),
                forall|k: int| 0 <= k < dropped@.len() ==> (#[trigger] dropped@[k]) < i,
            decreases orig.len() - i,
        {
            let ev = OpusPlayerEvent::AudioData {
                raw_opus_data: data.clone(),
                granule_position: granule,
            };
            let ok = crate::outside::try_send_event(&self.listeners[i], ev);
            if !ok {
                dropped.push(i);
            }
            i += 1;
        }

        let n = self.listeners.len();
        let mut kept: Vec<tokio::sync::mpsc::Sender<OpusPlayerEvent>> = Vec::new();
        let mut i: usize = 0;
        proof {
            assert(kept@ =~= spec_retained(orig, dropped@, 0));
            assert(orig.skip(0) =~= orig);
        }
        while i < n
            invariant
                0 <= i <= n,
                n == orig.len(),
                self.listeners@ == orig.skip(i as int),
                kept@ == spec_retained(orig, dropped@, i as int),
                self.start_instant == old(self).start_instant,
                self.headstart_buffer == old(self).headstart_buffer,
                self.headstart_granule_position == old(self).headstart_granule_position,
                self.granule_position == old(self).granule_position,
                self.active_file == old(self).active_file,
                self.current_playlist_path == old(self).current_playlist_path,
                old(self).listeners@ == orig,
            decreases n - i,
        {
            proof {
                assert(orig.skip(i as int)[0] == orig[i as int]);
                assert(orig.skip(i as int).remove(0) =~= orig.skip(i + 1));
            }
            let l = self.listeners.remove(0);
            if !contains_idx(&dropped, i) {
                kept.push(l);
            }
            i += 1;
        }
        self.listeners = kept;
        dropped
    }
}

/// Whether `i` occurs in `v`.
fn contains_idx(v: &Vec<usize>, i: usize) -> (r: bool)
    ensures
        r == v@.contains(i),
{
    let mut k: usize = 0;
    while k < v.len()
        invariant
            0 <= k <= v@.len(),
            forall|j: int| 0 <= j < k ==> v@[j] != i,
        decreases v@.len() - k,
    {
        if v[k] == i {
            return true;
        }
        k += 1;
    }
    proof {
        assert(forall|j: int| 0 <= j < v@.len() ==> v@[j] != i);
        assert(!v@.contains(i));
    }
    false
}

/// The cache's total splits at any cut.
pub proof fn lemma_hs_total_split(v: Seq<(Seq<u8>, int)>, i: int)
    requires
        0 <= i <= v.len(),
    ensures
        hs_total(v) == hs_total(v.take(i)) + hs_total(v.skip(i)),
    decreases i,
{
    if i == 0 {
        assert(v.take(0) =~= Seq::<(Seq<u8>, int)>::empty());
        assert(v.skip(0) =~= v);
    } else {
        lemma_hs_total_split(v, i - 1);
        assert(v.take(i) =~= v.take(i - 1).push(v[i - 1]));
        lemma_hs_total_push(v.take(i - 1), v[i - 1]);
        assert(v.skip(i - 1)[0] == v[i - 1]);
        assert(v.skip(i - 1).drop_first() =~= v.skip(i));
    }
}

/// A suffix of non-negative entries has a non-negative total.
pub proof fn lemma_hs_total_nonneg_tail(v: Seq<(Seq<u8>, int)>, i: int)
    requires
        0 <= i <= v.len(),
        forall|k: int| 0 <= k < v.len() ==> (#[trigger] v[k]).1 >= 0,
    ensures
        hs_total(v.skip(i)) >= 0,
    decreases v.len() - i,
{
    if i < v.len() {
        assert(v.skip(i)[0] == v[i]);
        assert(v.skip(i).drop_first() =~= v.skip(i + 1));
        lemma_hs_total_nonneg_tail(v, i + 1);
    } else {
        assert(v.skip(i) =~= Seq::<(Seq<u8>, int)>::empty());
    }
}

/// Trimming keeps a suffix of the cache: the result is `v` without its
/// first `k` frames, and the base granule advances by what they held.
pub proof fn lemma_trim_suffix(v: Seq<(Seq<u8>, int)>, base: int) -> (k: int)
    ensures
        0 <= k <= v.len(),
        spec_trim(v, base).0 == v.skip(k),
        spec_trim(v, base).1 == base + hs_total(v.take(k)),
        hs_total(spec_trim(v, base).0) == hs_total(v) - hs_total(v.take(k)),
    decreases v.len(),
{
    lemma_hs_total_split(v, 0);
    if v.len() == 0 || 2 * hs_total(v) <= MAX_HEADSTART_BUFFER_SIZE {
        assert(v.skip(0) =~= v);
        assert(v.take(0) =~= Seq::<(Seq<u8>, int)>::empty());
        0
    } else {
        let k1 = lemma_trim_suffix(v.drop_first(), base + v[0].1);
        assert(v.drop_first().skip(k1) =~= v.skip(k1 + 1));
        assert(v.take(k1 + 1) =~= seq![v[0]] + v.drop_first().take(k1));
        assert((seq![v[0]] + v.drop_first().take(k1)).drop_first() =~= v.drop_first().take(k1));
        assert(hs_total(seq![v[0]] + v.drop_first().take(k1)) == v[0].1 + hs_total(
            v.drop_first().take(k1),
        ));
        k1 + 1
    }
}

/// The trimmed cache fits the cap.
pub proof fn lemma_trim_bounded(v: Seq<(Seq<u8>, int)>, base: int)
    ensures
        2 * hs_total(spec_trim(v, base).0) <= MAX_HEADSTART_BUFFER_SIZE,
    decreases v.len(),
{
    if v.len() == 0 || 2 * hs_total(v) <= MAX_HEADSTART_BUFFER_SIZE {
    } else {
        lemma_trim_bounded(v.drop_first(), base + v[0].1);
    }
}

/// Trimming never removes the last frame when that frame alone fits.
pub proof fn lemma_trim_nonempty(v: Seq<(Seq<u8>, int)>, base: int)
    requires
        v.len() >= 1,
        2 * v.last().1 <= MAX_HEADSTART_BUFFER_SIZE,
    ensures
        spec_trim(v, base).0.len() >= 1,
        spec_trim(v, base).0.last() == v.last(),
    decreases v.len(),
{
    if 2 * hs_total(v) <= MAX_HEADSTART_BUFFER_SIZE {
    } else {
        if v.len() == 1 {
            assert(v.drop_first() =~= Seq::<(Seq<u8>, int)>::empty());
            assert(hs_total(v.drop_first()) == 0);
            assert(hs_total(v) == v[0].1 + 0);
            assert(false);
        } else {
            assert(v.drop_first().last() == v.last());
            lemma_trim_nonempty(v.drop_first(), base + v[0].1);
        }
    }
}

impl OpusPlayer {
    /// Take one decoded and re-encoded frame onto the timeline: advance the
    /// granule position by its samples, publish it to every listener and
    /// evict those that cannot keep up, slide it into the headstart window,
    /// and say how long the driving loop must sleep to stay exactly
    /// `BUFFER_SIZE_MS` ahead of the wall clock. Pacing begins only once the
    /// window has filled, so the first window's worth is produced eagerly.
    pub fn process_decoded_frame(&mut self, frame_samples: usize, encoded: Vec<u8>) -> (r:
        FrameOutcome)
        requires
            old(self).wf(),
            1 <= frame_samples <= MAX_FRAME_SAMPLES,
            old(self).granule_position + frame_samples <= u64::MAX,
        ensures
            final(self).wf(),
            final(self).granule_position == old(self).granule_position + frame_samples,
            final(self).active_file == old(self).active_file,
            final(self).current_playlist_path == old(self).current_playlist_path,
            final(self).start_instant == old(self).start_instant,
            final(self).listeners@ == spec_retained(
                old(self).listeners@,
                r.dropped@,
                old(self).listeners@.len() as int,
            ),
            forall|k: int| 0 <= k < r.dropped@.len() ==> (#[trigger] r.dropped@[k]) < old(
                self,
            ).listeners@.len(),
            ({
                let base0: int = if old(self).headstart_buffer@.len() == 0 {
                    old(self).granule_position as int
                } else {
                    old(self).headstart_granule_position as int
                };
                let pushed = hs_view(old(self).headstart_buffer@).push(
                    (encoded@, frame_samples as int),
                );
                let trimmed = spec_trim(pushed, base0);
                &&& hs_view(final(self).headstart_buffer@) == trimmed.0
                &&& final(self).headstart_granule_position as int == trimmed.1
            }),
            final(self).headstart_buffer@.len() >= 1,
            final(self).headstart_buffer@.last().data@ == encoded@,
            final(self).headstart_buffer@.last().samples == frame_samples,
            2 * hs_total(hs_view(old(self).headstart_buffer@)) < MAX_HEADSTART_BUFFER_SIZE
                ==> r.sleep_ms == 0,
    {
        let total0 = self.headstart_total();
        let was_full = 2 * total0 >= MAX_HEADSTART_BUFFER_SIZE;

        self.granule_position = self.granule_position + frame_samples as u64;
        let absgp = self.granule_position;

        let dropped = self.publish_frame(&encoded, absgp);

        if self.headstart_buffer.len() == 0 {
            self.headstart_granule_position = absgp - frame_samples as u64;
        }
        let ghost base0 = self.headstart_granule_position as int;
        let ghost oldv = hs_view(self.headstart_buffer@);
        let ghost pushed = oldv.push((encoded@, frame_samples as int));
        let mut total = total0 + frame_samples;
        self.headstart_buffer.push(HeadstartFrame { data: encoded, samples: frame_samples });
        proof {
            assert(hs_view(self.headstart_buffer@) =~= pushed);
            lemma_hs_total_push(oldv, (encoded@, frame_samples as int));
        }

        while 2 * total > MAX_HEADSTART_BUFFER_SIZE
            invariant
                total <= MAX_HEADSTART_BUFFER_SIZE / 2 + MAX_FRAME_SAMPLES,
                total == hs_total(hs_view(self.headstart_buffer@)),
                self.headstart_granule_position + total == self.granule_position,
                spec_trim(hs_view(self.headstart_buffer@), self.headstart_granule_position as int)
                    == spec_trim(pushed, base0),
                forall|i: int|
                    0 <= i < self.headstart_buffer@.len() ==> 1 <= (
                    #[trigger] self.headstart_buffer@[i]).samples <= MAX_FRAME_SAMPLES,
                self.granule_position == old(self).granule_position + frame_samples,
                self.active_file == old(self).active_file,
                self.current_playlist_path == old(self).current_playlist_path,
                self.start_instant == old(self).start_instant,
                self.listeners@ == spec_retained(
                    old(self).listeners@,
                    dropped@,
                    old(self).listeners@.len() as int,
                ),
            decreases self.headstart_buffer@.len(),
        {
            let ghost v = hs_view(self.headstart_buffer@);
            proof {
                if self.headstart_buffer@.len() == 0 {
                    assert(hs_total(v) == 0);
                    assert(false);
                }
                assert(v[0] == (self.headstart_buffer@[0].data@, self.headstart_buffer@[0].samples as int));
            }
            let front = self.headstart_buffer.remove(0);
            total = total - front.samples;
            self.headstart_granule_position = self.headstart_granule_position
                + front.samples as u64;
            proof {
                assert(hs_view(self.headstart_buffer@) =~= v.drop_first());
            }
        }
        proof {
            assert(hs_view(self.headstart_buffer@) == spec_trim(pushed, base0).0);
            lemma_trim_nonempty(pushed, base0);
            assert(pushed.last() == (self.headstart_buffer@.last().data@, self.headstart_buffer@.last().samples as int));
        }

        let sleep_ms: u64 = if !was_full {
            0
        } else {
            let now_ms = granule_ms(absgp);
            match &self.start_instant {
                Some(inst) => {
                    let elapsed = crate::outside::duration_as_millis(
                        &crate::outside::instant_elapsed(inst),
                    );
                    pacing_delay(now_ms, elapsed)
                },
                None => granule_ms(frame_samples as u64),
            }
        };
        FrameOutcome { sleep_ms, dropped }
    }
}

/// The id the next track gets: one past the current track's, or 1 for the
/// first track ever.
pub open spec fn spec_next_id(active: Option<ActiveFileMetadata>) -> u64 {
    match active {
        Some(f) => (f.id + 1) as u64,
        None => 1,
    }
}

/// The title the engine shows for a stream, read from its tag block; a
/// missing or unreadable block falls back to a fixed name.
pub open spec fn spec_track_title(pages: Seq<OggPage>) -> Seq<char> {
    match crate::comments::spec_pages_comment_packet(pages) {
        None => "Unknown Title"@,
        Some(p) => match crate::comments::spec_parse_comments(p) {
            crate::comments::SpecCommentsResult::Parsed { vendor, entries } => match crate::comments::spec_lookup(
                entries,
                "TITLE"@,
            ) {
                Some(t) => t,
                None => "Unknown Title"@,
            },
            crate::comments::SpecCommentsResult::Failed { message } => "Unknown Title"@,
        },
    }
}

/// The author shown for a stream, read as `spec_track_title` is.
pub open spec fn spec_track_author(pages: Seq<OggPage>) -> Seq<char> {
    match crate::comments::spec_pages_comment_packet(pages) {
        None => "Unknown Author"@,
        Some(p) => match crate::comments::spec_parse_comments(p) {
            crate::comments::SpecCommentsResult::Parsed { vendor, entries } => match crate::comments::spec_lookup(
                entries,
                "ARTIST"@,
            ) {
                Some(a) => a,
                None => "Unknown Author"@,
            },
            crate::comments::SpecCommentsResult::Failed { message } => "Unknown Author"@,
        },
    }
}

/// A packet that must not be re-broadcast: a stream-level identity or tag
/// header.
pub open spec fn spec_is_header_packet(p: Seq<u8>) -> bool {
    p.len() >= 8 && (p.subrange(0, 8) == OPUS_HEAD_MAGIC@ || p.subrange(0, 8)
        == crate::comments::OPUS_TAGS_MAGIC@)
}

impl OpusPlayer {
    /// Begin a new track on the running timeline: advance the track id, read
    /// title, author and duration from the pages, and remember the file's
    /// directory. The timeline itself — granule position, start instant once
    /// set, headstart window, listeners — is never reset, so the new track
    /// starts exactly where the old one stopped.
    pub fn start_playback(&mut self, path: &str, pages: &Vec<OggPage>) -> (r: Result<
        PlaybackState,
        String,
    >)
        requires
            old(self).wf(),
            (old(self).active_file matches Some(f) ==> f.id < u64::MAX),
        ensures
            final(self).wf(),
            final(self).granule_position == old(self).granule_position,
            final(self).headstart_buffer == old(self).headstart_buffer,
            final(self).headstart_granule_position == old(self).headstart_granule_position,
            final(self).listeners@ == old(self).listeners@,
            final(self).start_instant is Some,
            old(self).start_instant is Some ==> final(self).start_instant == old(
                self,
            ).start_instant,
            match crate::outside::parent_dir_of(path@) {
                Some(p) => final(self).current_playlist_path matches Some(s) && s@ == p,
                None => final(self).current_playlist_path == old(self).current_playlist_path,
            },
            final(self).active_file matches Some(m) && m.id == spec_next_id(old(self).active_file)
                && m.start_granule_position == old(self).granule_position && m.title@
                == spec_track_title(pages@) && m.author@ == spec_track_author(pages@) && (
            m.image matches Some(u) && u@ == "/playlist-image"@) && m.duration_ms == granule_to_ms(
                spec_last_nonzero_granule(pages@),
            ),
            r matches Ok(st) && st.file_id == spec_next_id(old(self).active_file)
                && st.next_packet == 0 && st.packets.deep_view() == spec_packets(
                spec_all_segments(pages@),
                Seq::empty(),
            ),
    {
        match crate::outside::path_parent(path) {
            Some(p) => {
                self.current_playlist_path = Some(p);
            },
            None => {},
        }

        if self.start_instant.is_none() {
            self.start_instant = Some(crate::outside::instant_now());
        }

        let duration_ms = granule_ms(crate::pages::last_nonzero_granule(pages));

        let (title, author) = match crate::comments::pages_comment_packet(pages) {
            Some(packet) => {
                match crate::comments::parse_opus_comment_header(packet.as_slice()) {
                    Ok(c) => {
                        let t = match c.title() {
                            Some(s) => s.to_owned(),
                            None => "Unknown Title".to_owned(),
                        };
                        let a = match c.artist() {
                            Some(s) => s.to_owned(),
                            None => "Unknown Author".to_owned(),
                        };
                        (t, a)
                    },
                    Err(_) => ("Unknown Title".to_owned(), "Unknown Author".to_owned()),
                }
            },
            None => ("Unknown Title".to_owned(), "Unknown Author".to_owned()),
        };

        let file_id: u64 = match &self.active_file {
            Some(f) => f.id + 1,
            None => 1,
        };

        self.active_file = Some(
            ActiveFileMetadata {
                id: file_id,
                start_granule_position: self.granule_position,
                title,
                author,
                image: Some("/playlist-image".to_owned()),
                duration_ms,
            },
        );

        let packets = crate::pages::extract_packets(pages);
        Ok(PlaybackState { packets, next_packet: 0, file_id })
    }

    /// Decide what to do with the track's next packet: report the stream's
    /// end, surrender when a newer track owns the engine, skip stream-level
    /// headers, and hand audio packets out for decoding.
    pub fn plan_next_packet(&self, state: &mut PlaybackState) -> (r: PacketPlan)
        ensures
            final(state).packets == old(state).packets,
            final(state).file_id == old(state).file_id,
            match self.active_file {
                None => r is NoTrack && final(state).next_packet == old(state).next_packet,
                Some(f) => {
                    if old(state).next_packet >= old(state).packets@.len() {
                        r is Eof && final(state).next_packet == old(state).next_packet
                    } else {
                        &&& final(state).next_packet == old(state).next_packet + 1
                        &&& {
                            let p = old(state).packets@[old(state).next_packet as int];
                            if f.id != old(state).file_id {
                                r is Interrupted
                            } else if spec_is_header_packet(p@) {
                                r is Skip
                            } else {
                                r matches PacketPlan::Decode(q) && q@ == p@
                            }
                        }
                    }
                },
            },
    {
        let f = match &self.active_file {
            Some(f) => f,
            None => {
                return PacketPlan::NoTrack;
            },
        };
        if state.next_packet >= state.packets.len() {
            return PacketPlan::Eof;
        }
        let idx = state.next_packet;
        state.next_packet = state.next_packet + 1;
        if f.id != state.file_id {
            return PacketPlan::Interrupted;
        }
        let packet = &state.packets[idx];
        let is_header = packet.len() >= 8 && {
            let head = vstd::slice::slice_subrange(packet.as_slice(), 0, 8);
            let head_magic = OPUS_HEAD_MAGIC;
            let tags_magic = crate::comments::OPUS_TAGS_MAGIC;
            crate::comments::bytes_eq(head, head_magic.as_slice()) || crate::comments::bytes_eq(
                head,
                tags_magic.as_slice(),
            )
        };
        if is_header {
            return PacketPlan::Skip;
        }
        let q = packet.clone();
        proof {
            assert(q@ =~= state.packets@[idx as int]@);
        }
        PacketPlan::Decode(q)
    }

    /// The headstart window as ready-to-send frames: the cached encoded
    /// frames in order, their granule positions laid out from the window's
    /// base granule forward by each frame's sample count. Empty when the
    /// window is empty.
    pub fn get_headstart_data(&self) -> (r: Vec<OpusPlayerEvent>)
        requires
            self.wf(),
        ensures
            r@.len() == self.headstart_buffer@.len(),
            forall|i: int|
                0 <= i < r@.len() ==> ((#[trigger] r@[i]) matches OpusPlayerEvent::AudioData {
                    raw_opus_data,
                    granule_position,
                } && raw_opus_data@ == self.headstart_buffer@[i].data@ && granule_position as int
                    == self.headstart_granule_position + hs_total(
                    hs_view(self.headstart_buffer@).take(i + 1),
                )),
    {
        let ghost v = hs_view(self.headstart_buffer@);
        let mut events: Vec<OpusPlayerEvent> = Vec::new();
        let mut g: u64 = self.headstart_granule_position;
        let mut i: usize = 0;
        proof {
            assert(v.take(0) =~= Seq::<(Seq<u8>, int)>::empty());
            assert(hs_total(v.take(0)) == 0);
            assert forall|k: int| 0 <= k < v.len() implies (#[trigger] v[k]).1 >= 0 by {
                assert(v[k].1 == self.headstart_buffer@[k].samples as int);
            }
            lemma_hs_total_nonneg_tail(v, 0);
            assert(v.skip(0) =~= v);
        }
        while i < self.headstart_buffer.len()
            invariant
                self.wf(),
                v == hs_view(self.headstart_buffer@),
                0 <= i <= v.len(),
                events@.len() == i,
                g == self.headstart_granule_position + hs_total(v.take(i as int)),
                g <= self.granule_position,
                forall|k: int|
                    0 <= k < i ==> ((#[trigger] events@[k]) matches OpusPlayerEvent::AudioData {
                        raw_opus_data,
                        granule_position,
                    } && raw_opus_data@ == self.headstart_buffer@[k].data@ && granule_position
                        as int == self.headstart_granule_position + hs_total(v.take(k + 1))),
            decreases v.len() - i,
        {
            proof {
                assert(v.take(i + 1) =~= v.take(i as int).push(v[i as int]));
                lemma_hs_total_push(v.take(i as int), v[i as int]);
                lemma_hs_total_split(v, i + 1);
                lemma_hs_total_nonneg_tail(v, i + 1);
                assert(v[i as int] == (self.headstart_buffer@[i as int].data@, self.headstart_buffer@[i as int].samples as int));
            }
            let frame = &self.headstart_buffer[i];
            g = g + frame.samples as u64;
            events.push(
                OpusPlayerEvent::AudioData { raw_opus_data: frame.data.clone(), granule_position: g },
            );
            proof {
                assert(events@.last() matches OpusPlayerEvent::AudioData {
                    raw_opus_data,
                    granule_position,
                } && raw_opus_data@ == self.headstart_buffer@[i as int].data@);
            }
            i += 1;
        }
        events
    }
}

/// Frames are published with strictly increasing granule positions: every
/// publication advances the timeline by the frame's samples, at least one,
/// so of any two successive frames the later one's granule is strictly
/// greater.
pub proof fn lemma_published_granules_increase(g0: u64, n1: usize, g1: u64, n2: usize, g2: u64)
    requires
        1 <= n1,
        1 <= n2,
        g1 == g0 + n1,
        g2 == g1 + n2,
    ensures
        g0 < g1,
        g1 < g2,
{
}

/// The headstart window never holds more than `BUFFER_SIZE_MS` worth of
/// 48 kHz stereo samples.
pub proof fn lemma_headstart_buffer_bounded(p: &OpusPlayer)
    requires
        p.wf(),
    ensures
        2 * hs_total(hs_view(p.headstart_buffer@)) <= MAX_HEADSTART_BUFFER_SIZE,
{
}

/// Every frame still cached in the headstart window covers a granule range
/// that ends at or before the timeline's head and starts within the last
/// `BUFFER_SIZE_MS` of it; in particular the frame just published is cached
/// whole at the window's end.
pub proof fn lemma_headstart_covers_published(p: &OpusPlayer, i: int)
    requires
        p.wf(),
        0 <= i < p.headstart_buffer@.len(),
    ensures
        ({
            let v = hs_view(p.headstart_buffer@);
            let start = p.headstart_granule_position + hs_total(v.take(i));
            let end = p.headstart_granule_position + hs_total(v.take(i + 1));
            &&& start < end <= p.granule_position
            &&& start + MAX_HEADSTART_BUFFER_SIZE / 2 >= p.granule_position
        }),
{
    let v = hs_view(p.headstart_buffer@);
    assert forall|k: int| 0 <= k < v.len() implies (#[trigger] v[k]).1 >= 0 by {
        assert(v[k].1 == p.headstart_buffer@[k].samples as int);
    }
    lemma_hs_total_split(v, i);
    lemma_hs_total_split(v, i + 1);
    lemma_hs_total_nonneg_tail(v, i);
    lemma_hs_total_nonneg_tail(v, i + 1);
    assert(v.take(i + 1) =~= v.take(i).push(v[i]));
    lemma_hs_total_push(v.take(i), v[i]);
    assert(v[i].1 == p.headstart_buffer@[i].samples as int);
    assert forall|k: int| 0 <= k < v.take(i).len() implies (#[trigger] v.take(i)[k]).1 >= 0 by {
        assert(v.take(i)[k] == v[k]);
        assert(v[k].1 == p.headstart_buffer@[k].samples as int);
    }
    lemma_hs_total_nonneg_tail(v.take(i), 0);
    assert(v.take(i).skip(0) =~= v.take(i));
}

/// Across a track switch at global granule `G` the timeline is continuous:
/// the new track starts at `G`, and the first frame then published ends at
/// exactly `G` plus its own sample count — no gap and no overlap.
pub proof fn lemma_track_switch_continuity(g: u64, n: usize)
    requires
        1 <= n,
        g + n <= u64::MAX,
    ensures
        (g + n) - g == n,
        g < g + n,
{
}

/// How long production must sleep to stay exactly `BUFFER_SIZE_MS` ahead of
/// the wall clock: the lead already produced beyond elapsed time plus the
/// intended window, or nothing when production is not that far ahead.
pub fn pacing_delay(now_ms: u64, elapsed_ms: u128) -> (r: u64)
    ensures
        now_ms > elapsed_ms + BUFFER_SIZE_MS ==> r == now_ms - (elapsed_ms + BUFFER_SIZE_MS),
        now_ms <= elapsed_ms + BUFFER_SIZE_MS ==> r == 0,
{
    if (now_ms as u128) > elapsed_ms && (now_ms as u128) - elapsed_ms > BUFFER_SIZE_MS as u128 {
        ((now_ms as u128) - elapsed_ms - BUFFER_SIZE_MS as u128) as u64
    } else {
        0
    }
}

} // verus!
