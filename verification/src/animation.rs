//! Animation bookkeeping that does not touch geometry: Haxe-style integer
//! parsing, frame sequences and the playback controller.
use crate::text::{chars_of, push_str, same_text};
use vstd::prelude::*;

verus! {

/// Characters with the Unicode `White_Space` property (what
/// `char::is_whitespace` and `str::trim_start` test for).
pub open spec fn is_white_space(c: char) -> bool {
    ||| '\u{9}' <= c <= '\u{d}'
    ||| c == ' '
    ||| c == '\u{85}'
    ||| c == '\u{a0}'
    ||| c == '\u{1680}'
    ||| '\u{2000}' <= c <= '\u{200a}'
    ||| c == '\u{2028}'
    ||| c == '\u{2029}'
    ||| c == '\u{202f}'
    ||| c == '\u{205f}'
    ||| c == '\u{3000}'
}

fn white_space(c: char) -> (r: bool)
    ensures
        r == is_white_space(c),
{
    ('\u{9}' <= c && c <= '\u{d}') || c == ' ' || c == '\u{85}' || c == '\u{a0}' || c == '\u{1680}'
        || ('\u{2000}' <= c && c <= '\u{200a}') || c == '\u{2028}' || c == '\u{2029}' || c
        == '\u{202f}' || c == '\u{205f}' || c == '\u{3000}'
}

/// Number of leading white-space characters of `s`.
pub open spec fn leading_space(s: Seq<char>) -> nat
    decreases s.len(),
{
    if s.len() > 0 && is_white_space(s[0]) {
        1 + leading_space(s.drop_first())
    } else {
        0
    }
}

/// The value of `c` as a digit in base `radix` (10 or 16).
pub open spec fn digit_value(c: char, radix: u32) -> Option<u32> {
    if '0' <= c <= '9' {
        Some((c as u32 - '0' as u32) as u32)
    } else if radix == 16 && 'a' <= c <= 'f' {
        Some((c as u32 - 'a' as u32 + 10) as u32)
    } else if radix == 16 && 'A' <= c <= 'F' {
        Some((c as u32 - 'A' as u32 + 10) as u32)
    } else {
        None
    }
}

fn digit(c: char, radix: u32) -> (r: Option<u32>)
    requires
        radix == 10 || radix == 16,
    ensures
        r == digit_value(c, radix),
{
    if '0' <= c && c <= '9' {
        Some((c as u32) - ('0' as u32))
    } else if radix == 16 && 'a' <= c && c <= 'f' {
        Some((c as u32) - ('a' as u32) + 10)
    } else if radix == 16 && 'A' <= c && c <= 'F' {
        Some((c as u32) - ('A' as u32) + 10)
    } else {
        None
    }
}

/// Number of leading digits of `s` in base `radix`.
pub open spec fn digit_run(s: Seq<char>, radix: u32) -> nat
    decreases s.len(),
{
    if s.len() > 0 && digit_value(s[0], radix) is Some {
        1 + digit_run(s.drop_first(), radix)
    } else {
        0
    }
}

/// The first `n` characters of `s` read as a base-`radix` number, wrapping
/// modulo 2^32 at every step.
pub open spec fn wrapped_value(s: Seq<char>, n: int, radix: u32) -> u32
    decreases n,
{
    if n <= 0 {
        0
    } else {
        ((wrapped_value(s, n - 1, radix) as int * radix as int + digit_value(s[n - 1], radix)->0 as int)
            % 0x1_0000_0000) as u32
    }
}

/// The `i32` with the bits of `v`.
pub open spec fn as_i32(v: u32) -> i32 {
    if v <= 0x7fff_ffff {
        v as i32
    } else {
        (v as int - 0x1_0000_0000) as i32
    }
}

/// `i32::wrapping_neg`.
pub open spec fn wrapping_neg(x: i32) -> i32 {
    if x == i32::MIN {
        x
    } else {
        (-x) as i32
    }
}

/// Haxe's `Std.parseInt`: after leading white space, an optional sign, then
/// `0x`/`0X` and hexadecimal digits, or decimal digits; the digits read are
/// those before the first non-digit, with 32-bit wrap-around. `None` when
/// no digit is read.
pub open spec fn haxe_int_spec(value: Seq<char>) -> Option<i32> {
    let s = value.skip(leading_space(value) as int);
    let negative = s.len() > 0 && s[0] == '-';
    let s = if s.len() > 0 && (s[0] == '-' || s[0] == '+') {
        s.drop_first()
    } else {
        s
    };
    let hex = s.len() >= 2 && s[0] == '0' && (s[1] == 'x' || s[1] == 'X');
    let radix: u32 = if hex {
        16
    } else {
        10
    };
    let s = if hex {
        s.skip(2)
    } else {
        s
    };
    let n = digit_run(s, radix);
    if n == 0 {
        None
    } else {
        let v = as_i32(wrapped_value(s, n as int, radix));
        Some(
            if negative {
                wrapping_neg(v)
            } else {
                v
            },
        )
    }
}

proof fn lemma_leading_space(s: Seq<char>, i: int)
    requires
        0 <= i <= s.len(),
        forall|j: int| 0 <= j < i ==> is_white_space(s[j]),
        i == s.len() || !is_white_space(s[i]),
    ensures
        leading_space(s) == i,
    decreases i,
{
    if i > 0 {
        lemma_leading_space(s.drop_first(), i - 1);
    }
}

proof fn lemma_digit_run(s: Seq<char>, radix: u32, i: int)
    requires
        0 <= i <= s.len(),
        forall|j: int| 0 <= j < i ==> digit_value(s[j], radix) is Some,
        i == s.len() || digit_value(s[i], radix) is None,
    ensures
        digit_run(s, radix) == i,
    decreases i,
{
    if i > 0 {
        lemma_digit_run(s.drop_first(), radix, i - 1);
    }
}

/// `haxe_int` on the characters of `chars` from position `start` on.
pub fn haxe_int_from(chars: &Vec<char>, start: usize) -> (r: Option<i32>)
    requires
        start <= chars@.len(),
    ensures
        r == haxe_int_spec(chars@.skip(start as int)),
{
    let ghost v = chars@.skip(start as int);
    let n = chars.len();
    let mut i = start;
    while i < n && white_space(chars[i])
        invariant
            start <= i <= n,
            n == chars@.len(),
            forall|j: int| start <= j < i ==> is_white_space(chars@[j]),
        decreases n - i,
    {
        i = i + 1;
    }
    proof {
        lemma_leading_space(v, i - start);
    }
    let ghost s1 = v.skip(leading_space(v) as int);
    assert(s1 =~= chars@.skip(i as int));
    let negative = i < n && chars[i] == '-';
    let ghost i1 = i;
    if i < n && (chars[i] == '-' || chars[i] == '+') {
        i = i + 1;
    }
    let ghost s2 = chars@.skip(i as int);
    proof {
        assert(negative == (s1.len() > 0 && s1[0] == '-'));
        if s1.len() > 0 && (s1[0] == '-' || s1[0] == '+') {
            assert(s2 =~= s1.drop_first());
        } else {
            assert(s2 =~= s1);
        }
    }
    let hex = i < n && n - i > 1 && chars[i] == '0' && (chars[i + 1] == 'x' || chars[i + 1] == 'X');
    let radix: u32 = if hex {
        16
    } else {
        10
    };
    if hex {
        i = i + 2;
    }
    let ghost s3 = chars@.skip(i as int);
    proof {
        assert(hex == (s2.len() >= 2 && s2[0] == '0' && (s2[1] == 'x' || s2[1] == 'X')));
        if hex {
            assert(s3 =~= s2.skip(2));
        } else {
            assert(s3 =~= s2);
        }
    }
    let digits_start = i;
    let mut value: u32 = 0;
    while i < n && digit(chars[i], radix).is_some()
        invariant
            digits_start <= i <= n,
            n == chars@.len(),
            radix == 10 || radix == 16,
            s3 == chars@.skip(digits_start as int),
            forall|j: int| digits_start <= j < i ==> digit_value(#[trigger] chars@[j], radix) is Some,
            value == wrapped_value(s3, i - digits_start, radix),
        decreases n - i,
    {
        let d = match digit(chars[i], radix) {
            Some(d) => d,
            None => 0,
        };
        proof {
            assert(s3[i - digits_start] == chars@[i as int]);
        }
        assert(d < 16);
        assert((value as u64) * (radix as u64) <= 0xffff_ffff * 16) by (nonlinear_arith)
            requires
                value <= 0xffff_ffff,
                radix <= 16,
        ;
        value = (((value as u64) * (radix as u64) + (d as u64)) % 0x1_0000_0000) as u32;
        i = i + 1;
    }
    proof {
        assert forall|j: int| 0 <= j < i - digits_start implies digit_value(s3[j], radix) is Some by {
            assert(s3[j] == chars@[digits_start + j]);
        }
        if i < n {
            assert(s3[i - digits_start] == chars@[i as int]);
        }
        lemma_digit_run(s3, radix, i - digits_start);
    }
    if i == digits_start {
        return None;
    }
    let signed: i64 = if value > 0x7fff_ffff {
        value as i64 - 0x1_0000_0000
    } else {
        value as i64
    };
    let result: i64 = if negative && signed != -0x8000_0000 {
        -signed
    } else {
        signed
    };
    proof {
        assert(signed == as_i32(value) as i64);
        assert(result == (if negative { wrapping_neg(as_i32(value)) } else { as_i32(value) }) as i64);
    }
    Some(result as i32)
}

/// Parses an integer prefix the way Haxe's `Std.parseInt` does.
pub fn haxe_int(value: &str) -> (r: Option<i32>)
    ensures
        r == haxe_int_spec(value@),
{
    let chars = chars_of(value);
    assert(chars@.skip(0) =~= chars@);
    haxe_int_from(&chars, 0)
}

/// Each frame index is one more than the one before, so the whole run
/// counts up from the first.
pub open spec fn consecutive(frames: Seq<u32>) -> bool {
    forall|i: int| 0 <= i < frames.len() ==> #[trigger] frames[i] == frames[0] + i
}

fn copy_frames(frames: &[u32]) -> (r: Vec<u32>)
    ensures
        r@ == frames@,
{
    let mut r: Vec<u32> = Vec::new();
    for i in 0..frames.len()
        invariant
            r@ == frames@.take(i as int),
    {
        r.push(frames[i]);
        assert(r@ =~= frames@.take(i + 1));
    }
    assert(frames@.take(frames@.len() as int) =~= frames@);
    r
}

/// The frames of an animation clip. A run of consecutive atlas indices is
/// stored as its start and length; any other order is stored as is.
pub enum FrameSequence {
    Range { start: u32, len: usize },
    Indices(Vec<u32>),
}

impl FrameSequence {
    /// The atlas indices, in playback order.
    pub open spec fn seq(&self) -> Seq<u32> {
        match self {
            FrameSequence::Range { start, len } => Seq::new(*len as nat, |i: int| (*start + i) as u32),
            FrameSequence::Indices(v) => v@,
        }
    }

    /// A range is stored only as long as its values fit `u32`.
    pub open spec fn wf(&self) -> bool {
        match self {
            FrameSequence::Range { start, len } => *len > 0 && *start + *len - 1 <= u32::MAX,
            FrameSequence::Indices(v) => true,
        }
    }

    pub fn new(frames: &[u32]) -> (r: Self)
        requires
            frames@.len() > 0,
        ensures
            r.wf(),
            r.seq() == frames@,
            r is Range <==> consecutive(frames@),
    {
        let mut i: usize = 1;
        while i < frames.len()
            invariant
                1 <= i <= frames@.len(),
                forall|j: int| 0 <= j < i ==> #[trigger] frames@[j] == frames@[0] + j,
            decreases frames@.len() - i,
        {
            if frames[i - 1] >= u32::MAX || frames[i - 1] + 1 != frames[i] {
                let r = FrameSequence::Indices(copy_frames(frames));
                assert(!consecutive(frames@)) by {
                    assert(frames@[i - 1] == frames@[0] + (i - 1));
                    if consecutive(frames@) {
                        assert(frames@[i as int] == frames@[0] + i);
                    }
                }
                return r;
            }
            i = i + 1;
        }
        let r = FrameSequence::Range { start: frames[0], len: frames.len() };
        assert(frames@[frames@.len() - 1] == frames@[0] + (frames@.len() - 1));
        assert(r.seq() =~= frames@);
        r
    }

    pub fn len(&self) -> (r: usize)
        ensures
            r == self.seq().len(),
    {
        match self {
            FrameSequence::Range { len, .. } => *len,
            FrameSequence::Indices(f) => f.len(),
        }
    }

    pub fn get(&self, index: usize) -> (r: u32)
        requires
            self.wf(),
            index < self.seq().len(),
        ensures
            r == self.seq()[index as int],
    {
        match self {
            FrameSequence::Range { start, .. } => *start + index as u32,
            FrameSequence::Indices(f) => f[index],
        }
    }
}

/// One named animation: its frames, its rate (of whatever type the caller
/// measures rates in) and whether it loops.
pub struct Clip<R> {
    pub name: String,
    pub frames: FrameSequence,
    pub rate: R,
    pub looping: bool,
}

/// Clip `i` is the first clip called `name`.
pub open spec fn is_first_clip(names: Seq<Seq<char>>, name: Seq<char>, i: int) -> bool {
    &&& 0 <= i < names.len()
    &&& names[i] == name
    &&& forall|j: int| 0 <= j < i ==> #[trigger] names[j] != name
}

/// No clip is called `name`.
pub open spec fn no_clip(names: Seq<Seq<char>>, name: Seq<char>) -> bool {
    forall|j: int| 0 <= j < names.len() ==> #[trigger] names[j] != name
}

/// The playback controller of an animated sprite: its clips, the clip
/// selected, the frame within it and whether it is running.
pub struct Playback<R> {
    clips: Vec<Clip<R>>,
    current: Option<usize>,
    cursor: usize,
    playing: bool,
}

impl<R> Playback<R> {
    /// The clip names, in the order they were added.
    pub closed spec fn names(&self) -> Seq<Seq<char>> {
        self.clips@.map_values(|c: Clip<R>| c.name@)
    }

    /// The frames of each clip.
    pub closed spec fn frames(&self) -> Seq<Seq<u32>> {
        self.clips@.map_values(|c: Clip<R>| c.frames.seq())
    }

    /// The rate of each clip.
    pub closed spec fn rates(&self) -> Seq<R> {
        self.clips@.map_values(|c: Clip<R>| c.rate)
    }

    /// Whether each clip loops.
    pub closed spec fn loops(&self) -> Seq<bool> {
        self.clips@.map_values(|c: Clip<R>| c.looping)
    }

    /// The selected clip.
    pub closed spec fn current(&self) -> Option<usize> {
        self.current
    }

    /// The frame within the selected clip (0 when none is selected).
    pub closed spec fn cursor(&self) -> nat {
        self.cursor as nat
    }

    /// Whether playback is running.
    pub closed spec fn running(&self) -> bool {
        self.playing
    }

    pub closed spec fn wf(&self) -> bool {
        &&& forall|i: int| 0 <= i < self.clips@.len() ==> (#[trigger] self.clips@[i]).frames.wf()
        &&& forall|i: int| 0 <= i < self.clips@.len() ==> (#[trigger] self.clips@[i]).frames.seq().len() > 0
        &&& match self.current {
            Some(i) => i < self.clips@.len() && self.cursor < self.clips@[i as int].frames.seq().len(),
            None => self.cursor == 0 && !self.playing,
        }
    }

    pub fn new() -> (r: Self)
        ensures
            r.wf(),
            r.names().len() == 0,
            r.current() is None,
            r.cursor() == 0,
            !r.running(),
    {
        Playback { clips: Vec::new(), current: None, cursor: 0, playing: false }
    }

    /// The frame within the selected clip.
    pub fn frame(&self) -> (r: usize)
        ensures
            r == self.cursor(),
    {
        self.cursor
    }

    /// The name of the selected clip.
    pub fn animation(&self) -> (r: Option<&str>)
        requires
            self.wf(),
        ensures
            r is Some <==> self.current() is Some,
            r matches Some(s) ==> s@ == self.names()[self.current()->0 as int],
    {
        match self.current {
            Some(i) => Some(self.clips[i].name.as_str()),
            None => None,
        }
    }

    /// Whether playback is running.
    pub fn playing(&self) -> (r: bool)
        ensures
            r == self.running(),
    {
        self.playing
    }

    /// The rate of the selected clip.
    pub fn current_rate(&self) -> (r: Option<&R>)
        requires
            self.wf(),
        ensures
            r is Some <==> self.current() is Some,
            r matches Some(x) ==> *x == self.rates()[self.current()->0 as int],
    {
        match self.current {
            Some(i) => Some(&self.clips[i].rate),
            None => None,
        }
    }

    /// The number of frames of the selected clip (0 when none is selected).
    pub fn current_len(&self) -> (r: usize)
        requires
            self.wf(),
        ensures
            r == match self.current() {
                Some(i) => self.frames()[i as int].len(),
                None => 0,
            },
    {
        match self.current {
            Some(i) => self.clips[i].frames.len(),
            None => 0,
        }
    }

    /// The atlas frame shown now: the selected clip's frame at the cursor,
    /// or frame 0 when no clip is selected.
    pub fn atlas_index(&self) -> (r: u32)
        requires
            self.wf(),
        ensures
            r == match self.current() {
                Some(i) => self.frames()[i as int][self.cursor() as int],
                None => 0,
            },
    {
        match self.current {
            Some(i) => self.clips[i].frames.get(self.cursor),
            None => 0,
        }
    }

    fn position(&self, name: &str) -> (r: Option<usize>)
        ensures
            r matches Some(i) ==> is_first_clip(self.names(), name@, i as int),
            r is None ==> no_clip(self.names(), name@),
    {
        let mut i: usize = 0;
        while i < self.clips.len()
            invariant
                i <= self.clips@.len(),
                forall|j: int| 0 <= j < i ==> #[trigger] self.names()[j] != name@,
            decreases self.clips@.len() - i,
        {
            if same_text(self.clips[i].name.as_str(), name) {
                return Some(i);
            }
            i = i + 1;
        }
        None
    }

    /// Adds the clip `name` over `frames` of an atlas of `atlas_len` frames,
    /// or replaces the first clip of that name. Replacing the selected clip
    /// restarts it; the result says whether that happened. Fails when
    /// `frames` is empty or names a frame the atlas lacks.
    pub fn add(&mut self, name: &str, frames: &[u32], atlas_len: usize, rate: R, looping: bool) -> (r: Result<bool, String>)
        requires
            old(self).wf(),
        ensures
            final(self).wf(),
            r is Ok <==> (frames@.len() > 0 && forall|j: int| 0 <= j < frames@.len() ==> #[trigger] frames@[j] < atlas_len),
            r matches Err(e) ==> e@ == "invalid animation frames or framerate"@ && *final(self) == *old(self),
            r matches Ok(restarted) ==> {
                &&& final(self).current() == old(self).current()
                &&& final(self).running() == old(self).running()
                &&& match old(self).position_spec(name@) {
                    Some(i) => {
                        &&& final(self).names() == old(self).names()
                        &&& final(self).frames() == old(self).frames().update(i, frames@)
                        &&& final(self).rates() == old(self).rates().update(i, rate)
                        &&& final(self).loops() == old(self).loops().update(i, looping)
                        &&& restarted == (old(self).current() == Some(i as usize))
                        &&& final(self).cursor() == if restarted { 0 } else { old(self).cursor() }
                    },
                    None => {
                        &&& final(self).names() == old(self).names().push(name@)
                        &&& final(self).frames() == old(self).frames().push(frames@)
                        &&& final(self).rates() == old(self).rates().push(rate)
                        &&& final(self).loops() == old(self).loops().push(looping)
                        &&& !restarted
                        &&& final(self).cursor() == old(self).cursor()
                    },
                }
            },
    {
        if frames.len() == 0 {
            return Err("invalid animation frames or framerate".to_owned());
        }
        let mut j: usize = 0;
        while j < frames.len()
            invariant
                j <= frames@.len(),
                *self == *old(self),
                old(self).wf(),
                forall|m: int| 0 <= m < j ==> #[trigger] frames@[m] < atlas_len,
            decreases frames@.len() - j,
        {
            if frames[j] as usize >= atlas_len {
                return Err("invalid animation frames or framerate".to_owned());
            }
            j = j + 1;
        }
        let clip = Clip { name: name.to_owned(), frames: FrameSequence::new(frames), rate, looping };
        let ghost before = *self;
        match self.position(name) {
            Some(i) => {
                proof {
                    assert(before.position_spec(name@) == Some(i as int)) by {
                        before.lemma_position_unique(name@, i as int);
                    }
                }
                self.clips.set(i, clip);
                proof {
                    assert(self.names() =~= before.names());
                    assert(self.frames() =~= before.frames().update(i as int, frames@));
                    assert(self.rates() =~= before.rates().update(i as int, rate));
                    assert(self.loops() =~= before.loops().update(i as int, looping));
                }
                if self.current == Some(i) {
                    self.cursor = 0;
                    return Ok(true);
                }
                Ok(false)
            },
            None => {
                proof {
                    assert(before.position_spec(name@) is None);
                }
                self.clips.push(clip);
                proof {
                    assert(self.names() =~= before.names().push(name@));
                    assert(self.frames() =~= before.frames().push(frames@));
                    assert(self.rates() =~= before.rates().push(rate));
                    assert(self.loops() =~= before.loops().push(looping));
                }
                Ok(false)
            },
        }
    }

    /// Selects the first clip called `name` and plays it from its first
    /// frame.
    pub fn play(&mut self, name: &str) -> (r: Result<(), String>)
        requires
            old(self).wf(),
        ensures
            final(self).wf(),
            r is Ok <==> old(self).position_spec(name@) is Some,
            r is Err <==> no_clip(old(self).names(), name@),
            r matches Err(e) ==> e@ == "unknown animation: "@ + name@ && *final(self) == *old(self),
            r is Ok ==> {
                &&& final(self).current() == Some(old(self).position_spec(name@)->0 as usize)
                &&& final(self).cursor() == 0
                &&& final(self).running()
                &&& final(self).same_clips(*old(self))
            },
    {
        proof {
            self.lemma_position(name@);
        }
        match self.position(name) {
            Some(i) => {
                proof {
                    self.lemma_position_unique(name@, i as int);
                }
                self.current = Some(i);
                self.cursor = 0;
                self.playing = true;
                Ok(())
            },
            None => {
                let mut e = "unknown animation: ".to_owned();
                push_str(&mut e, name);
                Err(e)
            },
        }
    }

    /// The clips are those of `other`.
    pub open spec fn same_clips(&self, other: Self) -> bool {
        &&& self.names() == other.names()
        &&& self.frames() == other.frames()
        &&& self.rates() == other.rates()
        &&& self.loops() == other.loops()
    }

    /// Stops advancing, keeping the frame.
    pub fn pause(&mut self)
        requires
            old(self).wf(),
        ensures
            final(self).wf(),
            !final(self).running(),
            final(self).current() == old(self).current(),
            final(self).cursor() == old(self).cursor(),
            final(self).same_clips(*old(self)),
    {
        self.playing = false;
    }

    /// Advances again, if a clip is selected.
    pub fn resume(&mut self)
        requires
            old(self).wf(),
        ensures
            final(self).wf(),
            final(self).running() == (old(self).current() is Some),
            final(self).current() == old(self).current(),
            final(self).cursor() == old(self).cursor(),
            final(self).same_clips(*old(self)),
    {
        self.playing = self.current.is_some();
    }

    /// Stops and goes back to the first frame.
    pub fn stop(&mut self)
        requires
            old(self).wf(),
        ensures
            final(self).wf(),
            !final(self).running(),
            final(self).current() == old(self).current(),
            final(self).cursor() == 0,
            final(self).same_clips(*old(self)),
    {
        self.playing = false;
        self.cursor = 0;
    }

    /// Shows frame `frame` of the selected clip.
    pub fn set_frame(&mut self, frame: usize) -> (r: Result<(), String>)
        requires
            old(self).wf(),
        ensures
            final(self).wf(),
            r is Ok <==> (old(self).current() matches Some(i) && frame < old(self).frames()[i as int].len()),
            r matches Err(e) ==> *final(self) == *old(self) && e@ == (if old(self).current() is None {
                "no animation selected"@
            } else {
                "animation frame out of range"@
            }),
            r is Ok ==> {
                &&& final(self).cursor() == frame
                &&& final(self).current() == old(self).current()
                &&& final(self).running() == old(self).running()
                &&& final(self).same_clips(*old(self))
            },
    {
        match self.current {
            None => Err("no animation selected".to_owned()),
            Some(i) => {
                if frame >= self.clips[i].frames.len() {
                    return Err("animation frame out of range".to_owned());
                }
                self.cursor = frame;
                Ok(())
            },
        }
    }

    /// Sets the rate of the first clip called `name`.
    pub fn set_rate(&mut self, name: &str, rate: R) -> (r: Result<(), String>)
        requires
            old(self).wf(),
        ensures
            final(self).wf(),
            r is Ok <==> old(self).position_spec(name@) is Some,
            r matches Err(e) ==> e@ == "unknown animation"@ && *final(self) == *old(self),
            r is Ok ==> {
                &&& final(self).rates() == old(self).rates().update(old(self).position_spec(name@)->0, rate)
                &&& final(self).names() == old(self).names()
                &&& final(self).frames() == old(self).frames()
                &&& final(self).loops() == old(self).loops()
                &&& final(self).current() == old(self).current()
                &&& final(self).cursor() == old(self).cursor()
                &&& final(self).running() == old(self).running()
            },
    {
        match self.position(name) {
            Some(i) => {
                proof {
                    self.lemma_position_unique(name@, i as int);
                }
                let ghost before = *self;
                let old_clip = self.clips.remove(i);
                let clip = Clip { name: old_clip.name, frames: old_clip.frames, rate, looping: old_clip.looping };
                self.clips.insert(i, clip);
                proof {
                    assert(self.clips@ =~= before.clips@.update(i as int, clip));
                    assert(self.names() =~= before.names());
                    assert(self.frames() =~= before.frames());
                    assert(self.loops() =~= before.loops());
                    assert(self.rates() =~= before.rates().update(i as int, rate));
                }
                Ok(())
            },
            None => Err("unknown animation".to_owned()),
        }
    }

    /// Sets whether the first clip called `name` loops.
    pub fn set_looping(&mut self, name: &str, looping: bool) -> (r: Result<(), String>)
        requires
            old(self).wf(),
        ensures
            final(self).wf(),
            r is Ok <==> old(self).position_spec(name@) is Some,
            r matches Err(e) ==> e@ == "unknown animation"@ && *final(self) == *old(self),
            r is Ok ==> {
                &&& final(self).loops() == old(self).loops().update(old(self).position_spec(name@)->0, looping)
                &&& final(self).names() == old(self).names()
                &&& final(self).frames() == old(self).frames()
                &&& final(self).rates() == old(self).rates()
                &&& final(self).current() == old(self).current()
                &&& final(self).cursor() == old(self).cursor()
                &&& final(self).running() == old(self).running()
            },
    {
        match self.position(name) {
            Some(i) => {
                proof {
                    self.lemma_position_unique(name@, i as int);
                }
                let ghost before = *self;
                let old_clip = self.clips.remove(i);
                let clip = Clip { name: old_clip.name, frames: old_clip.frames, rate: old_clip.rate, looping };
                self.clips.insert(i, clip);
                proof {
                    assert(self.clips@ =~= before.clips@.update(i as int, clip));
                    assert(self.names() =~= before.names());
                    assert(self.frames() =~= before.frames());
                    assert(self.rates() =~= before.rates());
                    assert(self.loops() =~= before.loops().update(i as int, looping));
                }
                Ok(())
            },
            None => Err("unknown animation".to_owned()),
        }
    }

    /// Renames the first clip called `old_name`; fails when a clip is
    /// already called `new_name`.
    pub fn rename(&mut self, old_name: &str, new_name: &str) -> (r: Result<(), String>)
        requires
            old(self).wf(),
        ensures
            final(self).wf(),
            r is Ok <==> (no_clip(old(self).names(), new_name@) && old(self).position_spec(old_name@) is Some),
            r matches Err(e) ==> *final(self) == *old(self) && e@ == (if !no_clip(old(self).names(), new_name@) {
                "animation name already exists"@
            } else {
                "unknown animation"@
            }),
            r is Ok ==> {
                &&& final(self).names() == old(self).names().update(old(self).position_spec(old_name@)->0, new_name@)
                &&& final(self).frames() == old(self).frames()
                &&& final(self).rates() == old(self).rates()
                &&& final(self).loops() == old(self).loops()
                &&& final(self).current() == old(self).current()
                &&& final(self).cursor() == old(self).cursor()
                &&& final(self).running() == old(self).running()
            },
    {
        if self.position(new_name).is_some() {
            return Err("animation name already exists".to_owned());
        }
        match self.position(old_name) {
            Some(i) => {
                proof {
                    self.lemma_position_unique(old_name@, i as int);
                }
                let ghost before = *self;
                let old_clip = self.clips.remove(i);
                let clip = Clip { name: new_name.to_owned(), frames: old_clip.frames, rate: old_clip.rate, looping: old_clip.looping };
                self.clips.insert(i, clip);
                proof {
                    assert(self.clips@ =~= before.clips@.update(i as int, clip));
                    assert(self.names() =~= before.names().update(i as int, new_name@));
                    assert(self.frames() =~= before.frames());
                    assert(self.rates() =~= before.rates());
                    assert(self.loops() =~= before.loops());
                }
                Ok(())
            },
            None => Err("unknown animation".to_owned()),
        }
    }

    /// Moves `steps` frames on in the running clip. Past its last frame a
    /// looping clip wraps around, and any other clip stops on its last
    /// frame; the result says whether it stopped so. A paused controller
    /// does not move.
    pub fn advance(&mut self, steps: u64) -> (stopped: bool)
        requires
            old(self).wf(),
        ensures
            final(self).wf(),
            final(self).same_clips(*old(self)),
            final(self).current() == old(self).current(),
            final(self).current() matches Some(i) ==> final(self).cursor() < final(self).frames()[i as int].len(),
            !old(self).running() ==> *final(self) == *old(self) && !stopped,
            old(self).running() ==> {
                let i = old(self).current()->0 as int;
                let len = old(self).frames()[i].len();
                let remaining = len - old(self).cursor();
                if steps < remaining {
                    &&& final(self).cursor() == old(self).cursor() + steps
                    &&& final(self).running()
                    &&& !stopped
                } else if old(self).loops()[i] {
                    &&& final(self).cursor() == (steps - remaining) % (len as int)
                    &&& final(self).running()
                    &&& !stopped
                } else {
                    &&& final(self).cursor() == len - 1
                    &&& !final(self).running()
                    &&& stopped
                }
            },
    {
        if !self.playing {
            return false;
        }
        let i = match self.current {
            Some(i) => i,
            None => return false,
        };
        let len = self.clips[i].frames.len();
        let remaining = len - self.cursor;
        if (steps as u128) < (remaining as u128) {
            self.cursor = self.cursor + steps as usize;
            false
        } else if self.clips[i].looping {
            let over = steps - remaining as u64;
            self.cursor = (over % len as u64) as usize;
            false
        } else {
            self.cursor = len - 1;
            self.playing = false;
            true
        }
    }

    /// The index of the first clip called `name`.
    pub closed spec fn position_spec(&self, name: Seq<char>) -> Option<int> {
        if exists|i: int| is_first_clip(self.names(), name, i) {
            Some(choose|i: int| is_first_clip(self.names(), name, i))
        } else {
            None
        }
    }

    /// The first clip called `name` is at `i`, if `i` is where it is.
    pub proof fn lemma_position_unique(&self, name: Seq<char>, i: int)
        requires
            is_first_clip(self.names(), name, i),
        ensures
            self.position_spec(name) == Some(i),
    {
        let k = choose|k: int| is_first_clip(self.names(), name, k);
        if k < i {
            assert(self.names()[k] != name);
        } else if i < k {
            assert(self.names()[i] != name);
        }
    }
}

/// A clip that `add` accepted can be played: whether it replaced a clip of
/// the same name or was appended, a clip of that name is then found.
pub proof fn law_added_clip_is_playable<R>(before: Playback<R>, after: Playback<R>, name: Seq<char>)
    requires
        match before.position_spec(name) {
            Some(i) => after.names() == before.names(),
            None => after.names() == before.names().push(name),
        },
    ensures
        after.position_spec(name) is Some,
{
    match before.position_spec(name) {
        Some(i) => {
            before.lemma_position_found(name);
        },
        None => {
            let n = before.names().len() as int;
            assert forall|j: int| 0 <= j < n implies #[trigger] after.names()[j] != name by {
                before.lemma_position_missing(name, j);
            }
            assert(is_first_clip(after.names(), name, n));
        },
    }
}

impl<R> Playback<R> {
    /// `position_spec` finds the first clip called `name`, and finds none
    /// exactly when no clip has that name.
    pub proof fn lemma_position(&self, name: Seq<char>)
        ensures
            match self.position_spec(name) {
                Some(i) => is_first_clip(self.names(), name, i),
                None => no_clip(self.names(), name),
            },
    {
        if self.position_spec(name) is Some {
            self.lemma_position_found(name);
        } else {
            assert forall|j: int| 0 <= j < self.names().len() implies #[trigger] self.names()[j] != name by {
                self.lemma_position_missing(name, j);
            }
        }
    }

    /// What well-formedness gives: one entry per clip in each table, no
    /// clip without frames, and a cursor inside the selected clip (at 0 and
    /// stopped when none is selected).
    pub proof fn lemma_wf(&self)
        requires
            self.wf(),
        ensures
            self.frames().len() == self.names().len(),
            self.rates().len() == self.names().len(),
            self.loops().len() == self.names().len(),
            forall|i: int| 0 <= i < self.frames().len() ==> #[trigger] self.frames()[i].len() > 0,
            match self.current() {
                Some(i) => i < self.names().len() && self.cursor() < self.frames()[i as int].len(),
                None => self.cursor() == 0 && !self.running(),
            },
    {
    }

    proof fn lemma_position_found(&self, name: Seq<char>)
        requires
            self.position_spec(name) is Some,
        ensures
            is_first_clip(self.names(), name, self.position_spec(name)->0),
    {
    }

    proof fn lemma_position_missing(&self, name: Seq<char>, j: int)
        requires
            self.position_spec(name) is None,
            0 <= j < self.names().len(),
        ensures
            self.names()[j] != name,
        decreases j,
    {
        if self.names()[j] == name {
            if forall|k: int| 0 <= k < j ==> #[trigger] self.names()[k] != name {
                assert(is_first_clip(self.names(), name, j));
            } else {
                let k = choose|k: int| 0 <= k < j && #[trigger] self.names()[k] == name;
                self.lemma_position_missing(name, k);
            }
        }
    }
}

} // verus!
