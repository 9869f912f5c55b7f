//! The integer decisions of audio loading and streaming: when a source is
//! decoded into memory, how track metadata is checked and converted, and
//! how the streaming buffer is refilled.
use vstd::prelude::*;

verus! {

/// How an audio file is held.
#[derive(Clone, Copy, Debug, PartialEq, Eq, Structural)]
pub enum AudioLoadMode {
    /// Decoded into memory when the decoded samples fit `MEMORY_LIMIT`,
    /// streamed otherwise.
    Auto,
    Memory,
    Stream,
}

impl Default for AudioLoadMode {
    fn default() -> (r: Self)
        ensures
            r == AudioLoadMode::Auto,
    {
        AudioLoadMode::Auto
    }
}

/// The audio output backend. ASIO is reserved for a future backend.
#[derive(Clone, Copy, Debug, PartialEq, Eq, Structural)]
#[non_exhaustive]
pub enum AudioBackend {
    Wasapi,
    Asio,
}

impl Default for AudioBackend {
    fn default() -> (r: Self)
        ensures
            r == AudioBackend::Wasapi,
    {
        AudioBackend::Wasapi
    }
}

/// Whether the backend can be started.
pub fn backend_available(backend: AudioBackend) -> (r: Result<(), String>)
    ensures
        r is Ok <==> backend == AudioBackend::Wasapi,
        r matches Err(e) ==> e@ == "ASIO is reserved but not implemented"@,
{
    match backend {
        AudioBackend::Wasapi => Ok(()),
        AudioBackend::Asio => Err("ASIO is reserved but not implemented".to_owned()),
    }
}

/// Bytes of decoded 32-bit float samples a source may hold in memory.
pub const MEMORY_LIMIT: usize = 33554432;

/// Players one engine mixes at most.
pub const MAX_PLAYERS: usize = 128;

/// Frames of `channels` 32-bit samples that fit `MEMORY_LIMIT`.
pub fn memory_frame_limit(channels: usize) -> (r: usize)
    requires
        1 <= channels <= 0x1000_0000,
    ensures
        r == MEMORY_LIMIT as int / (channels as int * 4),
{
    MEMORY_LIMIT / (channels * 4)
}

/// Whether a source is streamed before any packet is decoded: when asked
/// to, or, in `Auto` mode, when the track says it has more frames than fit.
pub fn streams_up_front(mode: AudioLoadMode, frames: Option<u64>, frame_limit: usize) -> (r: bool)
    ensures
        r == (mode == AudioLoadMode::Stream || (mode == AudioLoadMode::Auto && (match frames {
            Some(n) => n > frame_limit,
            None => false,
        }))),
{
    match mode {
        AudioLoadMode::Stream => true,
        AudioLoadMode::Memory => false,
        AudioLoadMode::Auto => match frames {
            Some(n) => n as u128 > frame_limit as u128,
            None => false,
        },
    }
}

/// Whether an `Auto` source turns to streaming once a packet of `packet`
/// frames would take the `decoded` frames past the limit (the track's frame
/// count can be absent or wrong).
pub fn streams_after_packet(mode: AudioLoadMode, decoded: usize, packet: usize, frame_limit: usize) -> (r: bool)
    ensures
        r == (mode == AudioLoadMode::Auto && decoded + packet > frame_limit),
{
    mode == AudioLoadMode::Auto && (decoded as u128) + (packet as u128) > frame_limit as u128
}

/// Frames reserved before decoding into memory: the track's frame count,
/// at most the limit.
pub fn reserved_frames(frames: Option<u64>, frame_limit: usize) -> (r: usize)
    ensures
        r == match frames {
            Some(n) => if n < frame_limit { n as int } else { frame_limit as int },
            None => 0,
        },
{
    match frames {
        Some(n) => if (n as u128) < (frame_limit as u128) {
            n as usize
        } else {
            frame_limit
        },
        None => 0,
    }
}

/// The highest sample rate accepted.
pub const MAX_SAMPLE_RATE: u32 = 384000;

/// A decodable track's format: sample rate, channel count and time base
/// (seconds per timestamp tick, as numerator and denominator).
#[derive(Clone, Copy, Debug, PartialEq, Eq, Structural)]
pub struct TrackFormat {
    pub rate: u32,
    pub channels: usize,
    pub numer: u32,
    pub denom: u32,
}

/// Checks what a track's codec parameters say: a known sample rate from 1
/// to 384 kHz, at least one channel (two when unknown), and a time base
/// with nonzero terms (one tick per sample when unknown).
pub fn check_track(rate: Option<u32>, channels: Option<usize>, time_base: Option<(u32, u32)>) -> (r: Result<TrackFormat, String>)
    ensures
        match rate {
            None => r matches Err(e) && e@ == "audio sample rate is unknown"@,
            Some(rt) => if rt == 0 || rt > MAX_SAMPLE_RATE {
                r matches Err(e) && e@ == "unsupported audio sample rate"@
            } else if channels == Some(0usize) {
                r matches Err(e) && e@ == "audio has no channels"@
            } else {
                let (n, d) = match time_base {
                    Some(tb) => tb,
                    None => (1u32, rt),
                };
                if n == 0 || d == 0 {
                    r matches Err(e) && e@ == "invalid audio time base"@
                } else {
                    r == Ok::<TrackFormat, String>(
                        TrackFormat {
                            rate: rt,
                            channels: match channels {
                                Some(c) => c,
                                None => 2,
                            },
                            numer: n,
                            denom: d,
                        },
                    )
                }
            },
        },
{
    let rate = match rate {
        Some(r) => r,
        None => return Err("audio sample rate is unknown".to_owned()),
    };
    if rate == 0 || rate > MAX_SAMPLE_RATE {
        return Err("unsupported audio sample rate".to_owned());
    }
    let channels = match channels {
        Some(c) => c,
        None => 2,
    };
    if channels == 0 {
        return Err("audio has no channels".to_owned());
    }
    let (numer, denom) = match time_base {
        Some(tb) => tb,
        None => (1, rate),
    };
    if numer == 0 || denom == 0 {
        return Err("invalid audio time base".to_owned());
    }
    Ok(TrackFormat { rate, channels, numer, denom })
}

proof fn lemma_mul3_bound(a: int, b: int, c: int, ba: int, bb: int, bc: int)
    by (nonlinear_arith)
    requires
        0 <= a <= ba,
        0 <= b <= bb,
        0 <= c <= bc,
    ensures
        0 <= a * b * c <= ba * bb * bc,
        0 <= a * b <= ba * bb,
{
}

/// The number of sample frames in `n_frames` ticks of the track's time base,
/// rounded down and capped at `u64::MAX`.
pub fn track_frames(n_frames: u64, format: TrackFormat) -> (r: u64)
    requires
        format.denom > 0,
        format.rate <= MAX_SAMPLE_RATE,
    ensures
        r == if n_frames * format.numer * format.rate / (format.denom as int) <= u64::MAX {
            n_frames * format.numer * format.rate / (format.denom as int)
        } else {
            u64::MAX as int
        },
{
    proof {
        lemma_mul3_bound(n_frames as int, format.numer as int, format.rate as int, u64::MAX as int, u32::MAX as int, MAX_SAMPLE_RATE as int);
    }
    let v = (n_frames as u128) * (format.numer as u128) * (format.rate as u128) / (format.denom as u128);
    if v <= u64::MAX as u128 {
        v as u64
    } else {
        u64::MAX
    }
}

/// The longest `Duration`, in nanoseconds.
pub const MAX_DURATION_NANOS: u128 = 18446744073709551615999999999;

/// The timestamp to seek to for `nanos` nanoseconds: rounded to the nearest
/// tick of the track's time base, capped at `u64::MAX`, then offset by the
/// track's first timestamp (saturating).
pub fn seek_timestamp(nanos: u128, format: TrackFormat, start_ts: u64) -> (r: u64)
    requires
        format.numer > 0,
        nanos <= MAX_DURATION_NANOS,
    ensures
        ({
            let divisor = format.numer * 1_000_000_000;
            let ticks = (nanos * format.denom + divisor / 2) / (divisor as int);
            let capped = if ticks <= u64::MAX { ticks } else { u64::MAX as int };
            r == if capped + start_ts <= u64::MAX { capped + start_ts } else { u64::MAX as int }
        }),
{
    let divisor = (format.numer as u128) * 1_000_000_000;
    proof {
        lemma_mul3_bound(nanos as int, format.denom as int, 1, MAX_DURATION_NANOS as int, u32::MAX as int, 1);
    }
    let ticks = (nanos * (format.denom as u128) + divisor / 2) / divisor;
    let capped: u64 = if ticks <= u64::MAX as u128 {
        ticks as u64
    } else {
        u64::MAX
    };
    capped.saturating_add(start_ts)
}

/// The frames of a packet at timestamp `packet_ts` to drop after a seek to
/// `target`: the ticks between them in sample frames, rounded to nearest
/// and capped at `usize::MAX`.
pub fn frames_to_skip(target: u64, packet_ts: u64, format: TrackFormat) -> (r: usize)
    requires
        format.denom > 0,
        format.rate <= MAX_SAMPLE_RATE,
    ensures
        ({
            let ticks = if target >= packet_ts { target - packet_ts } else { 0 };
            let frames = (ticks * format.numer * format.rate + format.denom / 2) / (format.denom as int);
            r == if frames <= usize::MAX { frames } else { usize::MAX as int }
        }),
{
    let ticks = target.saturating_sub(packet_ts);
    proof {
        lemma_mul3_bound(ticks as int, format.numer as int, format.rate as int, u64::MAX as int, u32::MAX as int, MAX_SAMPLE_RATE as int);
    }
    let numerator = (ticks as u128) * (format.numer as u128) * (format.rate as u128);
    let frames = (numerator + (format.denom as u128) / 2) / (format.denom as u128);
    if frames <= usize::MAX as u128 {
        frames as usize
    } else {
        usize::MAX
    }
}

/// The most frames moved into the stream buffer under one lock.
pub const REFILL_CHUNK: usize = 1024;

/// The least of the room left in the buffer, the frames left in the
/// packet and `REFILL_CHUNK`.
pub open spec fn refill_frames(capacity: int, buffered: int, packet_len: int, offset: int) -> int {
    let room = capacity - buffered;
    let left = packet_len - offset;
    let n = if room < left { room } else { left };
    if n < REFILL_CHUNK { n } else { REFILL_CHUNK as int }
}

/// How many frames of a decoded packet, `offset` of whose `packet_len`
/// frames are already buffered, go into a buffer holding `buffered` of
/// `capacity` frames: as many as fit and remain, at most `REFILL_CHUNK`.
pub fn refill_count(capacity: usize, buffered: usize, packet_len: usize, offset: usize) -> (r: usize)
    requires
        buffered <= capacity,
        offset <= packet_len,
    ensures
        r == refill_frames(capacity as int, buffered as int, packet_len as int, offset as int),
{
    let room = capacity - buffered;
    let left = packet_len - offset;
    let r = if room < left { room } else { left };
    if r < REFILL_CHUNK {
        r
    } else {
        REFILL_CHUNK
    }
}

/// What the stream's decoder does next, looked at under the buffer lock.
#[derive(Clone, Copy, Debug, PartialEq, Eq, Structural)]
pub enum DecoderAction {
    /// The stream was dropped: the decoder ends.
    Exit,
    /// A seek was asked for: it is taken and carried out.
    Seek,
    /// The buffer is full or the track ended: sleep until woken.
    Wait,
    /// Decode or buffer more frames.
    Work,
}

/// The decoder's next step, as `decoder_action` decides it.
pub open spec fn next_action(stop: bool, seek_pending: bool, eof: bool, buffered: int, capacity: int) -> DecoderAction {
    if stop {
        DecoderAction::Exit
    } else if seek_pending {
        DecoderAction::Seek
    } else if eof || buffered == capacity {
        DecoderAction::Wait
    } else {
        DecoderAction::Work
    }
}

/// The decoder's next step: stopping comes first, then a pending seek;
/// with the buffer full or the track at its end it sleeps.
pub fn decoder_action(stop: bool, seek_pending: bool, eof: bool, buffered: usize, capacity: usize) -> (r: DecoderAction)
    ensures
        r == next_action(stop, seek_pending, eof, buffered as int, capacity as int),
{
    if stop {
        DecoderAction::Exit
    } else if seek_pending {
        DecoderAction::Seek
    } else if eof || buffered == capacity {
        DecoderAction::Wait
    } else {
        DecoderAction::Work
    }
}

/// Frames a stream buffers: three seconds.
pub fn stream_capacity(rate: u32) -> (r: usize)
    requires
        rate <= MAX_SAMPLE_RATE,
    ensures
        r == rate * 3,
{
    rate as usize * 3
}

/// Whether the decoder is woken after the mixer took frames: when the
/// buffer just fell from above half its capacity to half or below.
pub fn wakes_decoder(before: usize, after: usize, capacity: usize) -> (r: bool)
    ensures
        r == (before > capacity / 2 && after <= capacity / 2),
{
    let low_water = capacity / 2;
    before > low_water && after <= low_water
}

/// The stream buffer between the decoder and the mixer stays within its
/// capacity, and whoever waits is woken to real work: a refill never takes
/// the buffer past `capacity`, and a decoder told to work with frames left
/// in its packet moves at least one; when the mixer's take wakes the
/// decoder, the buffer has room again, so the decoder, unless stopped,
/// seeking or at the end of the track, works.
pub proof fn law_stream_buffer(
    capacity: int,
    buffered: int,
    packet_len: int,
    offset: int,
    before: int,
    after: int,
)
    requires
        0 <= buffered <= capacity,
        0 <= offset <= packet_len,
        0 <= after <= before <= capacity,
    ensures
        buffered + refill_frames(capacity, buffered, packet_len, offset) <= capacity,
        offset + refill_frames(capacity, buffered, packet_len, offset) <= packet_len,
        next_action(false, false, false, buffered, capacity) is Work && offset < packet_len
            ==> refill_frames(capacity, buffered, packet_len, offset) > 0,
        (before > capacity / 2 && after <= capacity / 2) ==> next_action(false, false, false, after, capacity) is Work,
        (next_action(false, false, false, buffered, capacity) is Wait) == (buffered == capacity),
{
}

/// The generation a seek gives the stream buffer: one more, wrapping
/// around.
pub open spec fn generation_after_seek(g: u64) -> u64 {
    if g == u64::MAX {
        0
    } else {
        (g + 1) as u64
    }
}

/// The buffer's generation after a seek (`u64::wrapping_add(1)`).
pub fn seek_generation(g: u64) -> (r: u64)
    ensures
        r == generation_after_seek(g),
{
    if g == u64::MAX {
        0
    } else {
        g + 1
    }
}

/// Whether decoded frames go into the buffer: only when the decoder works
/// for the buffer's current generation, that is, has taken the latest seek.
pub fn accepts_frames(buffer_generation: u64, decoder_generation: u64) -> (r: bool)
    ensures
        r == (buffer_generation == decoder_generation),
{
    buffer_generation == decoder_generation
}

/// A seek delivers no frame decoded before it: a seek clears the buffer and
/// moves its generation on, so a decoder still working for the generation
/// before the seek has its frames refused until it takes that seek.
pub proof fn law_seek_refuses_stale_frames(g: u64)
    ensures
        generation_after_seek(g) != g,
{
}

/// Where attaching a player to an engine stands.
pub enum AttachPlan {
    /// The player is this engine's already.
    Attached,
    /// The player is new to this engine and is registered.
    Register,
}

/// Decides an attachment: a player owned by another engine is refused; a
/// new player is refused when `live_players` are mixed already.
pub fn attach_plan(owner_is_this_engine: Option<bool>, live_players: usize) -> (r: Result<AttachPlan, String>)
    ensures
        r is Err <==> attach_refused(owner_is_this_engine, live_players),
        match owner_is_this_engine {
            Some(true) => r matches Ok(AttachPlan::Attached),
            Some(false) => r matches Err(e) && e@ == "player is attached to another audio engine"@,
            None => if live_players == MAX_PLAYERS {
                r matches Err(e) && e@ == "audio engine player limit (128) reached"@
            } else {
                r matches Ok(AttachPlan::Register)
            },
        },
{
    match owner_is_this_engine {
        Some(true) => Ok(AttachPlan::Attached),
        Some(false) => Err("player is attached to another audio engine".to_owned()),
        None => if live_players == MAX_PLAYERS {
            Err("audio engine player limit (128) reached".to_owned())
        } else {
            Ok(AttachPlan::Register)
        },
    }
}

/// Whether `attach_plan` refuses: the player's live owner is another
/// engine, or the player is new and the engine mixes `MAX_PLAYERS` already.
pub open spec fn attach_refused(owner_is_this_engine: Option<bool>, live_players: usize) -> bool {
    match owner_is_this_engine {
        Some(this) => !this,
        None => live_players == MAX_PLAYERS,
    }
}

/// The live owner of a player after engine `engine` tried to attach it,
/// when `owner` was its live owner before (`None`: it had none, or that
/// engine was dropped): a new player is registered unless the engine is
/// full; an owned one keeps its owner.
pub open spec fn owner_after(owner: Option<u64>, engine: u64, live_players: usize) -> Option<u64> {
    match owner {
        Some(o) => Some(o),
        None => if live_players == MAX_PLAYERS {
            None
        } else {
            Some(engine)
        },
    }
}

/// The live owner after attempts by the engines `attempts`, in order, each
/// mixing `live_players` players, while no engine is dropped.
pub open spec fn owner_after_all(owner: Option<u64>, attempts: Seq<u64>, live_players: usize) -> Option<u64>
    decreases attempts.len(),
{
    if attempts.len() == 0 {
        owner
    } else {
        owner_after_all(owner_after(owner, attempts[0], live_players), attempts.drop_first(), live_players)
    }
}

/// A player belongs to one engine until that engine is dropped: while its
/// owner lives, whatever engines try to attach it, the owner stays, every
/// other engine is refused and the owner itself is not.
pub proof fn law_player_has_one_engine(owner: u64, attempts: Seq<u64>, live_players: usize)
    ensures
        owner_after_all(Some(owner), attempts, live_players) == Some(owner),
        forall|i: int|
            0 <= i < attempts.len() ==> attach_refused(Some(#[trigger] attempts[i] == owner), live_players) == (
            attempts[i] != owner),
    decreases attempts.len(),
{
    if attempts.len() > 0 {
        law_player_has_one_engine(owner, attempts.drop_first(), live_players);
    }
}

} // verus!
