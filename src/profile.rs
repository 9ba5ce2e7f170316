use vstd::prelude::*;

use crate::command::{
    chunk_count, chunk_len, chunk_offset, lemma_chunks_cover, read_chunk_packet,
    LIGHT_PROFILE_NUMBER,
};

verus! {

/// Size in bytes of the encoded light profile.
pub const LIGHT_PROFILE_LENGTH: usize = 635;

/// Why a byte buffer could not be decoded into a profile structure.
#[derive(Debug, Clone, Copy, PartialEq, Eq, Structural)]
pub enum DecodeError {
    /// The buffer ended before a field was fully read.
    UnexpectedEnd,
    /// The leading config index byte is not in `0..=3`.
    InvalidConfigIndex(u8),
}

/// Reads one byte at `*pos` and advances the position.
pub fn read_u8(buf: &[u8], pos: &mut usize) -> (r: Result<u8, DecodeError>)
    ensures
        (*old(pos) < buf@.len()) <==> r is Ok,
        r is Ok ==> r->Ok_0 == buf@[*old(pos) as int] && *final(pos) == *old(pos) + 1,
        r is Err ==> r == Err::<u8, DecodeError>(DecodeError::UnexpectedEnd),
{
    if *pos < buf.len() {
        let b = buf[*pos];
        *pos = *pos + 1;
        Ok(b)
    } else {
        Err(DecodeError::UnexpectedEnd)
    }
}

/// A colour as three bytes.
#[derive(Debug, Clone, Copy, PartialEq, Eq, Structural)]
pub struct RgbColor {
    pub red: u8,
    pub green: u8,
    pub blue: u8,
}

impl RgbColor {
    /// Encoded layout: red, green, blue.
    pub open spec fn bytes(self) -> Seq<u8> {
        seq![self.red, self.green, self.blue]
    }

    /// Appends the layout of the colour to `out`.
    pub fn write(&self, out: &mut Vec<u8>)
        ensures
            final(out)@ == old(out)@ + self.bytes(),
    {
        out.push(self.red);
        out.push(self.green);
        out.push(self.blue);
        assert(out@ =~= old(out)@ + self.bytes());
    }

    /// Reads a colour at `*pos`.
    pub fn read(buf: &[u8], pos: &mut usize) -> (r: Result<RgbColor, DecodeError>)
        ensures
            (*old(pos) + 3 <= buf@.len()) <==> r is Ok,
            r is Ok ==> r->Ok_0.bytes() == buf@.subrange(*old(pos) as int, *old(pos) + 3)
                && *final(pos) == *old(pos) + 3,
            r is Err ==> r == Err::<RgbColor, DecodeError>(DecodeError::UnexpectedEnd),
    {
        let red = match read_u8(buf, pos) {
            Ok(b) => b,
            Err(e) => return Err(e),
        };
        let green = match read_u8(buf, pos) {
            Ok(b) => b,
            Err(e) => return Err(e),
        };
        let blue = match read_u8(buf, pos) {
            Ok(b) => b,
            Err(e) => return Err(e),
        };
        let c = RgbColor { red, green, blue };
        assert(c.bytes() =~= buf@.subrange(*old(pos) as int, *old(pos) + 3));
        Ok(c)
    }
}

/// Concatenated layouts of a sequence of colours.
pub open spec fn colors_bytes(cs: Seq<RgbColor>) -> Seq<u8>
    decreases cs.len(),
{
    if cs.len() == 0 {
        Seq::empty()
    } else {
        colors_bytes(cs.drop_last()) + cs.last().bytes()
    }
}

/// One key frame: a colour for each of the five LED zones.
#[derive(Debug, Clone, Copy, PartialEq, Eq)]
pub struct Frame {
    pub leds: [RgbColor; 5],
}

impl Frame {
    /// Encoded layout: the five colours in order.
    pub open spec fn bytes(self) -> Seq<u8> {
        colors_bytes(self.leds@)
    }

    /// Appends the layout of the frame to `out`.
    pub fn write(&self, out: &mut Vec<u8>)
        ensures
            final(out)@ == old(out)@ + self.bytes(),
    {
        let mut k: usize = 0;
        while k < 5
            invariant
                k <= 5,
                out@ == old(out)@ + colors_bytes(self.leds@.take(k as int)),
            decreases 5 - k,
        {
            self.leds[k].write(out);
            assert(self.leds@.take(k + 1).drop_last() =~= self.leds@.take(k as int));
            assert(out@ =~= old(out)@ + colors_bytes(self.leds@.take(k + 1)));
            k = k + 1;
        }
        assert(self.leds@.take(5) =~= self.leds@);
    }

    /// Reads a frame at `*pos`.
    pub fn read(buf: &[u8], pos: &mut usize) -> (r: Result<Frame, DecodeError>)
        ensures
            (*old(pos) + 15 <= buf@.len()) <==> r is Ok,
            r is Ok ==> r->Ok_0.bytes() == buf@.subrange(*old(pos) as int, *old(pos) + 15)
                && *final(pos) == *old(pos) + 15,
            r is Err ==> r == Err::<Frame, DecodeError>(DecodeError::UnexpectedEnd),
    {
        let start: usize = *pos;
        let mut leds = [RgbColor { red: 0, green: 0, blue: 0 }; 5];
        let mut k: usize = 0;
        while k < 5
            invariant
                k <= 5,
                start == *old(pos),
                *pos == start + 3 * k,
                k > 0 ==> start + 3 * k <= buf@.len(),
                k > 0 ==> colors_bytes(leds@.take(k as int)) == buf@.subrange(
                    start as int,
                    start + 3 * k,
                ),
            decreases 5 - k,
        {
            let c = match RgbColor::read(buf, pos) {
                Ok(c) => c,
                Err(e) => {
                    return Err(e);
                },
            };
            let ghost prev = leds@;
            leds[k] = c;
            assert(leds@.take(k as int) =~= prev.take(k as int));
            if k == 0 {
                assert(colors_bytes(leds@.take(0)) =~= Seq::<u8>::empty());
                assert(buf@.subrange(start as int, start as int) =~= Seq::<u8>::empty());
            }
            assert(leds@.take(k + 1).drop_last() =~= leds@.take(k as int));
            assert(buf@.subrange(start as int, start + 3 * (k + 1)) =~= buf@.subrange(
                start as int,
                start + 3 * k,
            ) + buf@.subrange(start + 3 * k, start + 3 * k + 3));
            k = k + 1;
        }
        assert(leds@.take(5) =~= leds@);
        Ok(Frame { leds })
    }
}


/// Concatenated layouts of a sequence of frames.
pub open spec fn frames_bytes(fs: Seq<Frame>) -> Seq<u8>
    decreases fs.len(),
{
    if fs.len() == 0 {
        Seq::empty()
    } else {
        frames_bytes(fs.drop_last()) + fs.last().bytes()
    }
}

/// One animation: four settings bytes and eight key frames.
#[derive(Debug, Clone, Copy, PartialEq, Eq)]
pub struct Animation {
    pub key_frame_count: u8,
    pub effect_count: u8,
    pub speed: u8,
    pub brightness: u8,
    pub frames: [Frame; 8],
}

impl Animation {
    /// Encoded layout: the four settings bytes, then the frames in order.
    pub open spec fn bytes(self) -> Seq<u8> {
        seq![self.key_frame_count, self.effect_count, self.speed, self.brightness]
            + frames_bytes(self.frames@)
    }

    /// Appends the layout of the animation to `out`.
    pub fn write(&self, out: &mut Vec<u8>)
        ensures
            final(out)@ == old(out)@ + self.bytes(),
    {
        out.push(self.key_frame_count);
        out.push(self.effect_count);
        out.push(self.speed);
        out.push(self.brightness);
        let ghost head = out@;
        let mut k: usize = 0;
        while k < 8
            invariant
                k <= 8,
                out@ == head + frames_bytes(self.frames@.take(k as int)),
            decreases 8 - k,
        {
            self.frames[k].write(out);
            assert(self.frames@.take(k + 1).drop_last() =~= self.frames@.take(k as int));
            assert(out@ =~= head + frames_bytes(self.frames@.take(k + 1)));
            k = k + 1;
        }
        assert(self.frames@.take(8) =~= self.frames@);
        assert(out@ =~= old(out)@ + self.bytes());
    }

    /// Reads an animation at `*pos`.
    pub fn read(buf: &[u8], pos: &mut usize) -> (r: Result<Animation, DecodeError>)
        ensures
            (*old(pos) + 124 <= buf@.len()) <==> r is Ok,
            r is Ok ==> r->Ok_0.bytes() == buf@.subrange(*old(pos) as int, *old(pos) + 124)
                && *final(pos) == *old(pos) + 124,
            r is Err ==> r == Err::<Animation, DecodeError>(DecodeError::UnexpectedEnd),
    {
        let ghost base = *pos;
        let key_frame_count = match read_u8(buf, pos) {
            Ok(b) => b,
            Err(e) => return Err(e),
        };
        let effect_count = match read_u8(buf, pos) {
            Ok(b) => b,
            Err(e) => return Err(e),
        };
        let speed = match read_u8(buf, pos) {
            Ok(b) => b,
            Err(e) => return Err(e),
        };
        let brightness = match read_u8(buf, pos) {
            Ok(b) => b,
            Err(e) => return Err(e),
        };
        let start: usize = *pos;
        let empty = Frame { leds: [RgbColor { red: 0, green: 0, blue: 0 }; 5] };
        let mut frames = [empty; 8];
        let mut k: usize = 0;
        while k < 8
            invariant
                k <= 8,
                start == base + 4,
                base == *old(pos),
                start <= buf@.len(),
                *pos == start + 15 * k,
                start + 15 * k <= buf@.len(),
                frames_bytes(frames@.take(k as int)) == buf@.subrange(start as int, start + 15 * k),
            decreases 8 - k,
        {
            let f = match Frame::read(buf, pos) {
                Ok(f) => f,
                Err(e) => return Err(e),
            };
            let ghost prev = frames@;
            frames[k] = f;
            assert(frames@.take(k as int) =~= prev.take(k as int));
            assert(frames@.take(k + 1).drop_last() =~= frames@.take(k as int));
            assert(buf@.subrange(start as int, start + 15 * (k + 1)) =~= buf@.subrange(
                start as int,
                start + 15 * k,
            ) + buf@.subrange(start + 15 * k, start + 15 * k + 15));
            k = k + 1;
        }
        assert(frames@.take(8) =~= frames@);
        let a = Animation { key_frame_count, effect_count, speed, brightness, frames };
        assert(a.bytes() =~= buf@.subrange(base as int, base + 124));
        Ok(a)
    }
}


/// Concatenated layouts of a sequence of animations.
pub open spec fn animations_bytes(anims: Seq<Animation>) -> Seq<u8>
    decreases anims.len(),
{
    if anims.len() == 0 {
        Seq::empty()
    } else {
        animations_bytes(anims.drop_last()) + anims.last().bytes()
    }
}

/// Byte that encodes a flag: 1 for set, 0 for clear.
pub open spec fn flag_byte(b: bool) -> u8 {
    if b {
        1
    } else {
        0
    }
}

/// A stored lighting profile.
#[derive(Debug, Clone, Copy, PartialEq, Eq)]
pub struct LightProfile {
    pub config_index: u8,
    pub animations: [Animation; 5],
    pub audio_reactive_mode: bool,
    pub user_effect_index: u8,
    pub profile_led: RgbColor,
    pub raise_wake_up: bool,
    pub standby_time: u8,
    pub reserved_data: [u8; 7],
}

/// A profile of one of the kinds the device stores.
#[derive(Debug, Clone, Copy, PartialEq, Eq)]
pub enum Profile {
    Light(LightProfile),
}

impl LightProfile {
    /// Encoded layout, fields in declaration order, flags as `flag_byte`.
    pub open spec fn bytes(self) -> Seq<u8> {
        seq![self.config_index] + animations_bytes(self.animations@) + seq![
            flag_byte(self.audio_reactive_mode),
            self.user_effect_index,
        ] + self.profile_led.bytes() + seq![flag_byte(self.raise_wake_up), self.standby_time]
            + self.reserved_data@
    }

    /// The layout of the profile.
    pub fn to_bytes(&self) -> (r: Vec<u8>)
        ensures
            r@ == self.bytes(),
    {
        let mut out: Vec<u8> = Vec::new();
        out.push(self.config_index);
        let ghost head = out@;
        let mut k: usize = 0;
        while k < 5
            invariant
                k <= 5,
                head == seq![self.config_index],
                out@ == head + animations_bytes(self.animations@.take(k as int)),
            decreases 5 - k,
        {
            self.animations[k].write(&mut out);
            assert(self.animations@.take(k + 1).drop_last() =~= self.animations@.take(k as int));
            assert(out@ =~= head + animations_bytes(self.animations@.take(k + 1)));
            k = k + 1;
        }
        assert(self.animations@.take(5) =~= self.animations@);
        out.push(if self.audio_reactive_mode {
            1
        } else {
            0
        });
        out.push(self.user_effect_index);
        self.profile_led.write(&mut out);
        out.push(if self.raise_wake_up {
            1
        } else {
            0
        });
        out.push(self.standby_time);
        let ghost before_reserved = out@;
        let mut j: usize = 0;
        while j < 7
            invariant
                j <= 7,
                out@ == before_reserved + self.reserved_data@.take(j as int),
            decreases 7 - j,
        {
            out.push(self.reserved_data[j]);
            assert(out@ =~= before_reserved + self.reserved_data@.take(j + 1));
            j = j + 1;
        }
        assert(self.reserved_data@.take(7) =~= self.reserved_data@);
        assert(out@ =~= self.bytes());
        out
    }

    /// Whether `self` is what the 635-byte layout `s` decodes to: every
    /// field read in order, a flag set exactly when its byte is 1.
    pub open spec fn decoded_from(self, s: Seq<u8>) -> bool {
        &&& s.len() == 635
        &&& self.config_index == s[0]
        &&& animations_bytes(self.animations@) == s.subrange(1, 621)
        &&& self.audio_reactive_mode == (s[621] == 1)
        &&& self.user_effect_index == s[622]
        &&& self.profile_led.bytes() == s.subrange(623, 626)
        &&& self.raise_wake_up == (s[626] == 1)
        &&& self.standby_time == s[627]
        &&& self.reserved_data@ == s.subrange(628, 635)
    }

    /// Reads a light profile at `*pos`. Fails with `InvalidConfigIndex` when
    /// the first byte exceeds 3, and with `UnexpectedEnd` when the buffer
    /// ends first.
    pub fn read(buf: &[u8], pos: &mut usize) -> (r: Result<LightProfile, DecodeError>)
        ensures
            r is Ok <==> (*old(pos) + 635 <= buf@.len() && buf@[*old(pos) as int] <= 3),
            (*old(pos) < buf@.len() && r == Err::<LightProfile, DecodeError>(
                DecodeError::InvalidConfigIndex(buf@[*old(pos) as int]),
            )) <==> (*old(pos) < buf@.len() && buf@[*old(pos) as int] > 3),
            (r == Err::<LightProfile, DecodeError>(DecodeError::UnexpectedEnd)) <==> (*old(pos)
                >= buf@.len() || (buf@[*old(pos) as int] <= 3 && *old(pos) + 635 > buf@.len())),
            r is Ok ==> r->Ok_0.decoded_from(buf@.subrange(*old(pos) as int, *old(pos) + 635))
                && *final(pos) == *old(pos) + 635,
    {
        let ghost base = *pos;
        let config_index = match read_u8(buf, pos) {
            Ok(b) => b,
            Err(e) => return Err(e),
        };
        if config_index > 3 {
            return Err(DecodeError::InvalidConfigIndex(config_index));
        }
        let a0 = match Animation::read(buf, pos) {
            Ok(a) => a,
            Err(e) => return Err(e),
        };
        let mut animations = [a0; 5];
        assert(animations@.take(1).drop_last() =~= Seq::<Animation>::empty());
        assert(animations@[0] == a0);
        assert(animations@.take(1).last() == a0);
        assert(animations_bytes(Seq::<Animation>::empty()) =~= Seq::<u8>::empty());
        assert(animations_bytes(animations@.take(1)) =~= a0.bytes());
        let start: usize = *pos;
        let mut k: usize = 1;
        while k < 5
            invariant
                1 <= k <= 5,
                start == base + 125,
                base == *old(pos),
                base < buf@.len(),
                buf@[base as int] <= 3,
                *pos == start - 124 + 124 * k,
                start - 124 + 124 * k <= buf@.len(),
                animations_bytes(animations@.take(k as int)) == buf@.subrange(
                    start - 124,
                    start - 124 + 124 * k,
                ),
            decreases 5 - k,
        {
            let a = match Animation::read(buf, pos) {
                Ok(a) => a,
                Err(e) => return Err(e),
            };
            let ghost prev = animations@;
            animations[k] = a;
            assert(animations@.take(k as int) =~= prev.take(k as int));
            assert(animations@.take(k + 1).drop_last() =~= animations@.take(k as int));
            assert(buf@.subrange(start - 124, start - 124 + 124 * (k + 1)) =~= buf@.subrange(
                start - 124,
                start - 124 + 124 * k,
            ) + buf@.subrange(start - 124 + 124 * k, start - 124 + 124 * k + 124));
            k = k + 1;
        }
        assert(animations@.take(5) =~= animations@);
        let audio = match read_u8(buf, pos) {
            Ok(b) => b,
            Err(e) => return Err(e),
        };
        let user_effect_index = match read_u8(buf, pos) {
            Ok(b) => b,
            Err(e) => return Err(e),
        };
        let profile_led = match RgbColor::read(buf, pos) {
            Ok(c) => c,
            Err(e) => return Err(e),
        };
        let wake = match read_u8(buf, pos) {
            Ok(b) => b,
            Err(e) => return Err(e),
        };
        let standby_time = match read_u8(buf, pos) {
            Ok(b) => b,
            Err(e) => return Err(e),
        };
        let rstart: usize = *pos;
        let mut reserved_data = [0u8; 7];
        let mut j: usize = 0;
        while j < 7
            invariant
                j <= 7,
                rstart == base + 628,
                base == *old(pos),
                buf@[base as int] <= 3,
                *pos == rstart + j,
                rstart + j <= buf@.len(),
                reserved_data@.take(j as int) == buf@.subrange(rstart as int, rstart + j),
            decreases 7 - j,
        {
            let b = match read_u8(buf, pos) {
                Ok(b) => b,
                Err(e) => return Err(e),
            };
            reserved_data[j] = b;
            assert(reserved_data@.take(j + 1) =~= buf@.subrange(rstart as int, rstart + j + 1));
            j = j + 1;
        }
        assert(reserved_data@.take(7) =~= reserved_data@);
        let p = LightProfile {
            config_index,
            animations,
            audio_reactive_mode: audio == 1,
            user_effect_index,
            profile_led,
            raise_wake_up: wake == 1,
            standby_time,
            reserved_data,
        };
        let ghost s = buf@.subrange(base as int, base + 635);
        assert(s.subrange(1, 621) =~= buf@.subrange(base + 1, base + 621));
        assert(s.subrange(623, 626) =~= buf@.subrange(base + 623, base + 626));
        assert(s.subrange(628, 635) =~= buf@.subrange(base + 628, base + 635));
        Ok(p)
    }
}


proof fn lemma_split_concat(x1: Seq<u8>, y1: Seq<u8>, x2: Seq<u8>, y2: Seq<u8>)
    requires
        x1 + y1 == x2 + y2,
        x1.len() == x2.len(),
    ensures
        x1 == x2,
        y1 == y2,
{
    assert(x1 =~= (x1 + y1).take(x1.len() as int));
    assert(x2 =~= (x2 + y2).take(x2.len() as int));
    assert(y1 =~= (x1 + y1).skip(x1.len() as int));
    assert(y2 =~= (x2 + y2).skip(x2.len() as int));
}

proof fn lemma_colors_bytes(a: Seq<RgbColor>, b: Seq<RgbColor>)
    ensures
        colors_bytes(a).len() == 3 * a.len(),
        a.len() == b.len() && colors_bytes(a) == colors_bytes(b) ==> a == b,
    decreases a.len(),
{
    if a.len() > 0 {
        lemma_colors_bytes(a.drop_last(), b.drop_last());
        if a.len() == b.len() && colors_bytes(a) == colors_bytes(b) {
            lemma_colors_bytes(b.drop_last(), a.drop_last());
            lemma_split_concat(
                colors_bytes(a.drop_last()),
                a.last().bytes(),
                colors_bytes(b.drop_last()),
                b.last().bytes(),
            );
            let (c, d) = (a.last(), b.last());
            assert(c.bytes()[0] == d.bytes()[0] && c.bytes()[1] == d.bytes()[1] && c.bytes()[2]
                == d.bytes()[2]);
            assert(a =~= a.drop_last().push(c));
            assert(b =~= b.drop_last().push(d));
        }
    }
}

proof fn lemma_frames_bytes(a: Seq<Frame>, b: Seq<Frame>)
    ensures
        frames_bytes(a).len() == 15 * a.len(),
        a.len() == b.len() && frames_bytes(a) == frames_bytes(b) ==> a == b,
    decreases a.len(),
{
    if a.len() > 0 {
        lemma_frames_bytes(a.drop_last(), b.drop_last());
        let (f, g) = (a.last(), b.last());
        lemma_colors_bytes(f.leds@, g.leds@);
        if a.len() == b.len() && frames_bytes(a) == frames_bytes(b) {
            lemma_frames_bytes(b.drop_last(), a.drop_last());
            lemma_colors_bytes(g.leds@, f.leds@);
            lemma_split_concat(
                frames_bytes(a.drop_last()),
                f.bytes(),
                frames_bytes(b.drop_last()),
                g.bytes(),
            );
            assert(f.leds == g.leds);
            assert(a =~= a.drop_last().push(f));
            assert(b =~= b.drop_last().push(g));
        }
    }
}

proof fn lemma_animation_bytes(x: Animation, y: Animation)
    ensures
        x.bytes().len() == 124,
        x.bytes() == y.bytes() ==> x == y,
{
    lemma_frames_bytes(x.frames@, y.frames@);
    lemma_frames_bytes(y.frames@, x.frames@);
    let hx = seq![x.key_frame_count, x.effect_count, x.speed, x.brightness];
    let hy = seq![y.key_frame_count, y.effect_count, y.speed, y.brightness];
    if x.bytes() == y.bytes() {
        lemma_split_concat(hx, frames_bytes(x.frames@), hy, frames_bytes(y.frames@));
        assert(hx[0] == hy[0] && hx[1] == hy[1] && hx[2] == hy[2] && hx[3] == hy[3]);
        assert(x.frames == y.frames);
    }
}

proof fn lemma_animations_bytes(a: Seq<Animation>, b: Seq<Animation>)
    ensures
        animations_bytes(a).len() == 124 * a.len(),
        a.len() == b.len() && animations_bytes(a) == animations_bytes(b) ==> a == b,
    decreases a.len(),
{
    if a.len() > 0 {
        lemma_animations_bytes(a.drop_last(), b.drop_last());
        let (x, y) = (a.last(), b.last());
        lemma_animation_bytes(x, y);
        if a.len() == b.len() && animations_bytes(a) == animations_bytes(b) {
            lemma_animations_bytes(b.drop_last(), a.drop_last());
            lemma_animation_bytes(y, x);
            lemma_split_concat(
                animations_bytes(a.drop_last()),
                x.bytes(),
                animations_bytes(b.drop_last()),
                y.bytes(),
            );
            assert(a =~= a.drop_last().push(x));
            assert(b =~= b.drop_last().push(y));
        }
    }
}

/// Encoding a profile whose config index is valid and decoding the layout
/// gives back the same profile: the layout is 635 bytes, the profile is what
/// it decodes to, and nothing else is.
pub proof fn lemma_profile_round_trip(p: LightProfile, q: LightProfile)
    requires
        p.config_index <= 3,
    ensures
        p.bytes().len() == LIGHT_PROFILE_LENGTH,
        p.bytes()[0] <= 3,
        p.decoded_from(p.bytes()),
        q.decoded_from(p.bytes()) ==> q == p,
{
    let s = p.bytes();
    lemma_animations_bytes(p.animations@, q.animations@);
    lemma_animations_bytes(q.animations@, p.animations@);
    let head = seq![p.config_index];
    let anims = animations_bytes(p.animations@);
    let mid = seq![flag_byte(p.audio_reactive_mode), p.user_effect_index];
    let led = p.profile_led.bytes();
    let tail = seq![flag_byte(p.raise_wake_up), p.standby_time];
    assert(s =~= head + anims + mid + led + tail + p.reserved_data@);
    assert(s.subrange(1, 621) =~= anims);
    assert(s.subrange(623, 626) =~= led);
    assert(s.subrange(628, 635) =~= p.reserved_data@);
    assert(s[621] == flag_byte(p.audio_reactive_mode));
    assert(s[622] == p.user_effect_index);
    assert(s[626] == flag_byte(p.raise_wake_up));
    assert(s[627] == p.standby_time);
    if q.decoded_from(s) {
        let (c, d) = (q.profile_led, p.profile_led);
        assert(c.bytes()[0] == d.bytes()[0] && c.bytes()[1] == d.bytes()[1] && c.bytes()[2]
            == d.bytes()[2]);
        assert(q.animations == p.animations);
        assert(q.reserved_data == p.reserved_data);
    }
}

/// Byte offset, within an acknowledgment packet, where the chunk data starts.
pub const CHUNK_DATA_START: usize = 6;

/// Start offset carried by a profile chunk packet: bytes 3 and 4, high first.
pub open spec fn chunk_start_of(d: Seq<u8>) -> int {
    256 * d[3] + d[4]
}

/// Chunk length carried by a profile chunk packet: byte 5.
pub open spec fn chunk_len_of(d: Seq<u8>) -> int {
    d[5] as int
}

/// Why a profile chunk acknowledgment was not taken.
#[derive(Debug, Clone, Copy, PartialEq, Eq, Structural)]
pub enum ProfileError {
    /// The packet is too short for its header or for the chunk it announces.
    PacketTooShort,
    /// The packet is for a profile kind other than the light profile.
    UnsupportedProfileKind(u8),
    /// The chunk would reach past the end of the profile: the device broke
    /// the framing of the transfer.
    ChunkOverflow { start: u16, length: u8 },
    /// The completed profile does not decode.
    Decode(DecodeError),
}

impl ProfileError {
    /// Whether the error breaks the protocol itself, so that no further
    /// exchange with the device can be trusted.
    pub fn is_fatal(&self) -> (r: bool)
        ensures
            r == (*self is ChunkOverflow),
    {
        match self {
            ProfileError::ChunkOverflow { .. } => true,
            _ => false,
        }
    }
}

/// What taking the chunk packet `data` does to a reassembly buffer holding
/// `old`: the new buffer `new` and the result `r`. A packet is taken when it
/// holds a light profile header and the chunk it announces, ending at most
/// at byte 635. A taken chunk is copied in at its start offset; the result
/// is `Ok(None)` until a chunk ends at byte 635, and then the decoded buffer.
pub open spec fn accept_spec(
    old: Seq<u8>,
    data: Seq<u8>,
    new: Seq<u8>,
    r: Result<Option<Profile>, ProfileError>,
) -> bool {
    let header = data.len() >= 6;
    let light = header && data[2] == LIGHT_PROFILE_NUMBER;
    let start = chunk_start_of(data);
    let end = chunk_start_of(data) + chunk_len_of(data);
    let fits = light && end <= 635;
    let accepted = fits && 6 + chunk_len_of(data) <= data.len();
    &&& (r == Err::<Option<Profile>, ProfileError>(ProfileError::PacketTooShort)) <==> (!header
        || (fits && !accepted))
    &&& (header && r == Err::<Option<Profile>, ProfileError>(
        ProfileError::UnsupportedProfileKind(data[2]),
    )) <==> (header && !light)
    &&& (r is Err && r->Err_0 is ChunkOverflow) <==> (light && end > 635)
    &&& (r is Err && r->Err_0 is ChunkOverflow) ==> r->Err_0 == (ProfileError::ChunkOverflow {
        start: start as u16,
        length: data[5],
    })
    &&& !accepted ==> new == old
    &&& accepted ==> new == old.take(start) + data.subrange(6, 6 + chunk_len_of(data)) + old.skip(
        end,
    )
    &&& accepted && end < 635 ==> r == Ok::<Option<Profile>, ProfileError>(None)
    &&& accepted && end == 635 && new[0] <= 3 ==> r is Ok && r->Ok_0 is Some
        && r->Ok_0->Some_0->Light_0.decoded_from(new)
    &&& accepted && end == 635 && new[0] > 3 ==> r == Err::<Option<Profile>, ProfileError>(
        ProfileError::Decode(DecodeError::InvalidConfigIndex(new[0])),
    )
}

/// Acknowledgments that echo, in order, the chunk headers of a read of the
/// light profile are all taken: chunk `i` lands at offset `58 * i`, and the
/// transfer is complete on the last chunk and never before.
pub proof fn lemma_reassembly_completes_on_last(
    request: Seq<u8>,
    ack: Seq<u8>,
    i: int,
    old: Seq<u8>,
    new: Seq<u8>,
    r: Result<Option<Profile>, ProfileError>,
)
    requires
        0 <= i < chunk_count(635),
        read_chunk_packet(request, 635, i),
        ack.len() == 64,
        ack[2] == request[2],
        ack[3] == request[3],
        ack[4] == request[4],
        ack[5] == request[5],
        old.len() == 635,
        accept_spec(old, ack, new, r),
    ensures
        chunk_start_of(ack) == chunk_offset(i),
        new == old.take(chunk_offset(i)) + ack.subrange(6, 6 + chunk_len(635, i)) + old.skip(
            chunk_offset(i) + chunk_len(635, i),
        ),
        i < chunk_count(635) - 1 ==> r == Ok::<Option<Profile>, ProfileError>(None),
        i == chunk_count(635) - 1 ==> r != Ok::<Option<Profile>, ProfileError>(None),
        i == chunk_count(635) - 1 && new[0] <= 3 ==> r is Ok && r->Ok_0 is Some,
{
    lemma_chunks_cover(635);
    assert(chunk_count(635) == 11);
    assert(0 < chunk_len(635, i) <= 58);
}

/// Accumulates the chunks of a light profile transfer.
pub struct ProfileParser {
    color_buf: Vec<u8>,
}

impl View for ProfileParser {
    type V = Seq<u8>;

    closed spec fn view(&self) -> Seq<u8> {
        self.color_buf@
    }
}

impl ProfileParser {
    /// The buffer always holds a whole light profile.
    pub closed spec fn wf(&self) -> bool {
        self.color_buf@.len() == 635
    }

    /// A parser with a zeroed buffer.
    pub fn new() -> (r: ProfileParser)
        ensures
            r.wf(),
            r@ == Seq::new(635, |_i: int| 0u8),
    {
        let p = ProfileParser { color_buf: vec![0u8; 635] };
        assert(p@ =~= Seq::new(635, |_i: int| 0u8));
        p
    }

    /// Takes one profile chunk acknowledgment packet. Copies its chunk into
    /// the buffer and, when the chunk ends exactly at the end of the profile,
    /// decodes the buffer. `Ok(None)` means that more chunks are due.
    pub fn accept(&mut self, data: &[u8]) -> (r: Result<Option<Profile>, ProfileError>)
        requires
            old(self).wf(),
        ensures
            final(self).wf(),
            accept_spec(old(self)@, data@, final(self)@, r),
    {
        if data.len() < 6 {
            return Err(ProfileError::PacketTooShort);
        }
        let profile_index = data[2];
        if profile_index != LIGHT_PROFILE_NUMBER {
            return Err(ProfileError::UnsupportedProfileKind(profile_index));
        }
        let start_index: usize = 256 * (data[3] as usize) + data[4] as usize;
        let packet_data_length: usize = data[5] as usize;
        let end: usize = start_index + packet_data_length;
        if end > LIGHT_PROFILE_LENGTH {
            return Err(
                ProfileError::ChunkOverflow { start: start_index as u16, length: data[5] },
            );
        }
        if CHUNK_DATA_START + packet_data_length > data.len() {
            return Err(ProfileError::PacketTooShort);
        }
        let ghost before = self.color_buf@;
        let mut j: usize = 0;
        while j < packet_data_length
            invariant
                j <= packet_data_length,
                end == start_index + packet_data_length,
                end <= 635,
                6 + packet_data_length <= data@.len(),
                self.color_buf@.len() == 635,
                forall|m: int|
                    0 <= m < 635 ==> #[trigger] self.color_buf@[m] == if start_index <= m
                        < start_index + j {
                        data@[6 + m - start_index]
                    } else {
                        before[m]
                    },
            decreases packet_data_length - j,
        {
            self.color_buf.set(start_index + j, data[CHUNK_DATA_START + j]);
            j = j + 1;
        }
        assert(self.color_buf@ =~= before.take(start_index as int) + data@.subrange(
            6,
            6 + packet_data_length,
        ) + before.skip(end as int));
        if end < LIGHT_PROFILE_LENGTH {
            return Ok(None);
        }
        let mut pos: usize = 0;
        match LightProfile::read(self.color_buf.as_slice(), &mut pos) {
            Ok(p) => {
                assert(self.color_buf@.subrange(0, 635) =~= self.color_buf@);
                Ok(Some(Profile::Light(p)))
            },
            Err(e) => Err(ProfileError::Decode(e)),
        }
    }
}

} // verus!
