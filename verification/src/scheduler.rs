//! Frame scheduling: how many frames a scene takes, when each frame is, and
//! where the frames of each scene stand in the sequence of the whole script.

use vstd::prelude::*;
use vstd::string::*;

use crate::ast::{BeamScript, Scene, SceneView};
use crate::color::{digit_text, hex_char};
use crate::time::Duration;

verus! {

/// Frames per second of scene time.
pub const FRAME_RATE: u64 = 60;

/// The length of a scene that states none, in nanoseconds: two seconds.
pub const DEFAULT_SCENE_NANOS: u128 = 2_000_000_000;

/// How long a scene lasts, in nanoseconds.
pub open spec fn duration_of(scene: SceneView) -> nat {
    match scene.duration {
        Some(nanos) => nanos,
        None => 2_000_000_000,
    }
}

/// The number of frames that cover `nanos` nanoseconds at sixty frames per
/// second: the time in seconds times sixty, rounded up.
pub open spec fn frames_in(nanos: nat) -> nat {
    ((nanos * 60 + 999_999_999) / 1_000_000_000) as nat
}

/// The number of frames of a scene; a count that does not fit in 64 bits is
/// cut down to the largest that does.
pub open spec fn frames_of(scene: SceneView) -> nat {
    let frames = frames_in(duration_of(scene));
    if frames > u64::MAX {
        u64::MAX as nat
    } else {
        frames
    }
}

/// The instant of the frame `index`, in nanoseconds: `index` sixtieths of a
/// second, to the nearest nanosecond.
pub open spec fn instant_of(index: nat) -> nat {
    ((index * 1_000_000_000 + 30) / 60) as nat
}

/// The number of frames of all the scenes together.
pub open spec fn total_frames(scenes: Seq<SceneView>) -> nat
    decreases scenes.len(),
{
    if scenes.len() == 0 {
        0
    } else {
        total_frames(scenes.drop_last()) + frames_of(scenes.last())
    }
}

/// How long the scene lasts: what it states, or two seconds.
pub fn scene_duration(scene: &Scene) -> (duration: Duration)
    ensures
        duration@ == duration_of(scene@),
{
    match scene.duration {
        Some(duration) => duration,
        None => Duration { nanos: DEFAULT_SCENE_NANOS },
    }
}

/// The number of frames that cover `duration`.
pub fn frame_count(duration: Duration) -> (frames: u64)
    ensures
        frames as nat == if frames_in(duration@) > u64::MAX {
            u64::MAX as nat
        } else {
            frames_in(duration@)
        },
{
    let secs: u128 = duration.nanos / 1_000_000_000;
    let rest: u128 = duration.nanos % 1_000_000_000;
    let frames: u128 = secs * 60 + (rest * 60 + 999_999_999) / 1_000_000_000;
    assert(frames as nat == frames_in(duration@)) by {
        let n = duration.nanos as int;
        let s = secs as int;
        let r = rest as int;
        assert(n == s * 1_000_000_000 + r);
        assert((n * 60 + 999_999_999) == (s * 60) * 1_000_000_000 + (r * 60 + 999_999_999));
        vstd::arithmetic::div_mod::lemma_fundamental_div_mod(r * 60 + 999_999_999, 1_000_000_000);
        vstd::arithmetic::div_mod::lemma_mod_bound(r * 60 + 999_999_999, 1_000_000_000);
        vstd::arithmetic::div_mod::lemma_fundamental_div_mod_converse(
            (s * 60) * 1_000_000_000 + (r * 60 + 999_999_999),
            1_000_000_000,
            s * 60 + (r * 60 + 999_999_999) / 1_000_000_000,
            (r * 60 + 999_999_999) % 1_000_000_000,
        );
    }
    if frames > 0xffff_ffff_ffff_ffff {
        0xffff_ffff_ffff_ffff
    } else {
        frames as u64
    }
}

/// The instant of the frame `index` of a scene, counted from the scene's
/// start.
pub fn frame_time(index: u64) -> (at: Duration)
    ensures
        at@ == instant_of(index as nat),
{
    let wide: u128 = index as u128;
    Duration { nanos: (wide * 1_000_000_000 + 30) / 60 }
}

/// The instant of a frame is the whole nanosecond nearest to its sixtieth of
/// a second: less than half a nanosecond off.
pub proof fn instant_is_nearest_nanosecond(index: nat)
    ensures
        -30 < 60 * instant_of(index) - index * 1_000_000_000 < 30,
{
    let x = index * 1_000_000_000 + 30;
    assert(x == 60 * (x / 60) + x % 60) by {
        vstd::arithmetic::div_mod::lemma_fundamental_div_mod(x as int, 60);
    }
    assert((index * 1_000_000_000) % 20 == 0) by (nonlinear_arith);
    assert(x % 60 == 10 || x % 60 == 30 || x % 60 == 50) by {
        assert(x % 20 == 10);
    }
}

/// Frames come in order of time: a later frame is never earlier.
pub proof fn instants_ascend(earlier: nat, later: nat)
    requires
        earlier <= later,
    ensures
        instant_of(earlier) <= instant_of(later),
{
    assert(earlier * 1_000_000_000 + 30 <= later * 1_000_000_000 + 30) by (nonlinear_arith)
        requires
            earlier <= later,
    ;
    vstd::arithmetic::div_mod::lemma_div_is_ordered(
        (earlier * 1_000_000_000 + 30) as int,
        (later * 1_000_000_000 + 30) as int,
        60,
    );
}

/// Every frame of a scene lies within the scene: the instant of the frame
/// `index` is before the scene's end whenever `index` is below the scene's
/// frame count.
pub proof fn frames_lie_within(nanos: nat, index: nat)
    requires
        index < frames_in(nanos),
    ensures
        instant_of(index) < nanos + 1,
{
    let f = frames_in(nanos) as int;
    let y = nanos * 60 + 999_999_999;
    vstd::arithmetic::div_mod::lemma_fundamental_div_mod(y as int, 1_000_000_000);
    assert(f * 1_000_000_000 <= y);
    assert(index * 1_000_000_000 <= (f - 1) * 1_000_000_000) by (nonlinear_arith)
        requires
            index <= f - 1,
    ;
    let x = index * 1_000_000_000 + 30;
    vstd::arithmetic::div_mod::lemma_fundamental_div_mod(x as int, 60);
    assert(60 * (x / 60) <= x);
}

/// The frames that one scene takes in the sequence of the whole script.
#[derive(Clone, Copy, Debug, PartialEq, Eq, Structural)]
pub struct Shot {
    /// The position of the scene in the script.
    pub scene: usize,
    /// The global index of the scene's first frame.
    pub first_frame: u64,
    /// The number of frames of the scene.
    pub frames: u64,
    /// Whether the scene has a timeline, so that each frame has to be
    /// resolved for its own instant; without one, every frame shows the scene
    /// as it is declared.
    pub animated: bool,
}

/// Whether `shots` lays out the scenes one behind the other: one shot for
/// each scene, in the order of the script, each with the scene's frame
/// count, and starting where the one before it ends.
pub open spec fn lays_out(shots: Seq<Shot>, scenes: Seq<SceneView>) -> bool {
    &&& shots.len() == scenes.len()
    &&& forall|k: int|
        0 <= k < shots.len() ==> {
            &&& (#[trigger] shots[k]).scene == k
            &&& shots[k].frames == frames_of(scenes[k])
            &&& shots[k].first_frame == total_frames(scenes.take(k))
            &&& shots[k].animated == (scenes[k].timeline is Some)
        }
}

/// The number of frames of the whole script, unless it exceeds 64 bits.
pub fn total_frame_count(script: &BeamScript) -> (total: Option<u64>)
    ensures
        match total {
            Some(n) => n as nat == total_frames(script@.scenes),
            None => total_frames(script@.scenes) > u64::MAX,
        },
{
    let ghost scenes = script@.scenes;
    let mut total: u64 = 0;
    let mut k: usize = 0;
    assert(scenes.take(0) =~= Seq::<SceneView>::empty());
    while k < script.scenes.len()
        invariant
            k <= script.scenes.len(),
            scenes == script@.scenes,
            scenes.len() == script.scenes.len(),
            total as nat == total_frames(scenes.take(k as int)),
        decreases script.scenes.len() - k,
    {
        let frames = frame_count(scene_duration(&script.scenes[k]));
        proof {
            assert(scenes.take(k + 1).drop_last() =~= scenes.take(k as int));
            assert(scenes.take(k + 1).last() == script.scenes@[k as int]@);
        }
        match total.checked_add(frames) {
            Some(sum) => {
                total = sum;
            },
            None => {
                proof {
                    total_frames_grow(scenes, k + 1);
                }
                return None;
            },
        }
        k += 1;
    }
    assert(scenes.take(k as int) =~= scenes);
    Some(total)
}

/// The frames of the first scenes are among the frames of all of them.
pub proof fn total_frames_grow(scenes: Seq<SceneView>, k: int)
    requires
        0 <= k <= scenes.len(),
    ensures
        total_frames(scenes.take(k)) <= total_frames(scenes),
    decreases scenes.len() - k,
{
    if k < scenes.len() {
        total_frames_grow(scenes, k + 1);
        assert(scenes.take(k + 1).drop_last() =~= scenes.take(k));
    } else {
        assert(scenes.take(k) =~= scenes);
    }
}

/// Lays the scenes of the script out as one sequence of frames: scene after
/// scene in the order of the script, without gaps. Yields nothing when the
/// script has more frames than 64 bits can count.
pub fn schedule(script: &BeamScript) -> (shots: Option<Vec<Shot>>)
    ensures
        match shots {
            Some(shots) => lays_out(shots@, script@.scenes) && total_frames(script@.scenes)
                <= u64::MAX,
            None => total_frames(script@.scenes) > u64::MAX,
        },
{
    let ghost scenes = script@.scenes;
    let mut shots: Vec<Shot> = Vec::new();
    let mut offset: u64 = 0;
    let mut k: usize = 0;
    assert(scenes.take(0) =~= Seq::<SceneView>::empty());
    while k < script.scenes.len()
        invariant
            k <= script.scenes.len(),
            scenes == script@.scenes,
            scenes.len() == script.scenes.len(),
            offset as nat == total_frames(scenes.take(k as int)),
            lays_out(shots@, scenes.take(k as int)),
        decreases script.scenes.len() - k,
    {
        let scene = &script.scenes[k];
        let frames = frame_count(scene_duration(scene));
        proof {
            assert(scenes.take(k + 1).drop_last() =~= scenes.take(k as int));
            assert(scenes.take(k + 1).last() == scene@);
        }
        let shot = Shot { scene: k, first_frame: offset, frames, animated: scene.timeline.is_some() };
        match offset.checked_add(frames) {
            Some(sum) => {
                proof {
                    let grown = shots@.push(shot);
                    let upto = scenes.take(k + 1);
                    assert forall|j: int| 0 <= j < grown.len() implies {
                        &&& (#[trigger] grown[j]).scene == j
                        &&& grown[j].frames == frames_of(upto[j])
                        &&& grown[j].first_frame == total_frames(upto.take(j))
                        &&& grown[j].animated == (upto[j].timeline is Some)
                    } by {
                        assert(upto.take(j) =~= scenes.take(j));
                        if j < k {
                            assert(scenes.take(k as int).take(j) =~= scenes.take(j));
                            assert(grown[j] == shots@[j]);
                        }
                    }
                }
                shots.push(shot);
                offset = sum;
            },
            None => {
                proof {
                    total_frames_grow(scenes, k + 1);
                }
                return None;
            },
        }
        k += 1;
    }
    assert(scenes.take(k as int) =~= scenes);
    Some(shots)
}

/// A layout has no gaps and no overlaps: each shot starts at the frame
/// behind the last frame of the shot before it, and the first at frame 0.
pub proof fn shots_follow_one_another(shots: Seq<Shot>, scenes: Seq<SceneView>, k: int)
    requires
        lays_out(shots, scenes),
        0 <= k < shots.len(),
    ensures
        k == 0 ==> shots[k].first_frame == 0,
        k + 1 < shots.len() ==> shots[k + 1].first_frame == shots[k].first_frame + shots[k].frames,
        shots[k].first_frame + shots[k].frames <= total_frames(scenes),
{
    assert(scenes.take(0) =~= Seq::<SceneView>::empty());
    assert(scenes.take(k + 1).drop_last() =~= scenes.take(k));
    assert(scenes.take(k + 1).last() == scenes[k]);
    total_frames_grow(scenes, k + 1);
}

/// A number in decimal, without leading zeros.
pub open spec fn decimal(n: nat) -> Seq<char>
    decreases n,
{
    if n < 10 {
        seq![hex_char(n as u8)]
    } else {
        decimal(n / 10).push(hex_char((n % 10) as u8))
    }
}

/// A number in decimal, with zeros in front of it where it has fewer than
/// `width` digits.
pub open spec fn zero_padded(n: nat, width: nat) -> Seq<char> {
    let digits = decimal(n);
    if digits.len() >= width {
        digits
    } else {
        Seq::new((width - digits.len()) as nat, |i: int| '0') + digits
    }
}

/// The name of the slot of the frame with the global index `index`: the
/// index in at least five digits between `frame_` and `.png`.
pub open spec fn slot_name(index: nat) -> Seq<char> {
    "frame_"@ + zero_padded(index, 5) + ".png"@
}

fn digit_count(n: u64) -> (count: usize)
    ensures
        count == decimal(n as nat).len(),
        1 <= count <= 20,
    decreases n,
{
    if n < 10 {
        1
    } else {
        let rest = digit_count(n / 10);
        assert(rest <= 19) by {
            digits_are_few(n as nat / 10);
        }
        rest + 1
    }
}

proof fn digits_are_few(n: nat)
    requires
        n <= 1_844_674_407_370_955_161,
    ensures
        decimal(n).len() <= 19,
{
    reveal_with_fuel(decimal, 20);
}

fn write_decimal(n: u64, out: &mut String)
    ensures
        final(out)@ == old(out)@ + decimal(n as nat),
    decreases n,
{
    if n < 10 {
        out.append(digit_text(n as u8));
        assert(out@ =~= old(out)@ + decimal(n as nat));
    } else {
        write_decimal(n / 10, out);
        out.append(digit_text((n % 10) as u8));
        assert(out@ =~= old(out)@ + decimal(n as nat));
    }
}

/// The name of the slot into which the frame with the global index `index`
/// is written. Names sort like their indices as long as the indices have no
/// more than five digits.
pub fn frame_file_name(index: u64) -> (name: String)
    ensures
        name@ == slot_name(index as nat),
{
    let mut name = String::from_str("frame_");
    let count = digit_count(index);
    let ghost pad: Seq<char> = Seq::empty();
    let mut k: usize = count;
    while k < 5
        invariant
            count <= k,
            k == count || k <= 5,
            pad.len() == k - count,
            forall|i: int| 0 <= i < pad.len() ==> pad[i] == '0',
            name@ == "frame_"@ + pad,
        decreases 5 - k,
    {
        name.append("0");
        proof {
            reveal_strlit("0");
            pad = pad.push('0');
            assert("0"@ =~= seq!['0']);
        }
        k += 1;
    }
    write_decimal(index, &mut name);
    name.append(".png");
    proof {
        let digits = decimal(index as nat);
        if digits.len() < 5 {
            assert(pad =~= Seq::new((5 - digits.len()) as nat, |i: int| '0'));
        } else {
            assert(pad =~= Seq::<char>::empty());
        }
        assert(name@ =~= slot_name(index as nat));
    }
    name
}

/// The number that a text of decimal digits spells.
pub open spec fn number_of(digits: Seq<char>) -> int
    decreases digits.len(),
{
    if digits.len() == 0 {
        0
    } else {
        number_of(digits.drop_last()) * 10 + (digits.last() as int - 0x30)
    }
}

proof fn decimal_reads_back(n: nat)
    ensures
        number_of(decimal(n)) == n,
    decreases n,
{
    if n < 10 {
        let digits = decimal(n);
        assert(digits.drop_last() =~= Seq::<char>::empty());
        assert(number_of(digits.drop_last()) == 0);
    } else {
        decimal_reads_back(n / 10);
        let digits = decimal(n);
        assert(digits.drop_last() =~= decimal(n / 10));
    }
}

proof fn zeros_spell_nothing(zeros: Seq<char>, digits: Seq<char>)
    requires
        forall|i: int| 0 <= i < zeros.len() ==> zeros[i] == '0',
    ensures
        number_of(zeros + digits) == number_of(digits),
    decreases digits.len(), zeros.len(),
{
    if digits.len() > 0 {
        zeros_spell_nothing(zeros, digits.drop_last());
        assert((zeros + digits).drop_last() =~= zeros + digits.drop_last());
    } else if zeros.len() > 0 {
        zeros_spell_nothing(zeros.drop_last(), digits);
        assert(zeros + digits =~= zeros);
        assert(zeros.drop_last() + digits =~= zeros.drop_last());
    } else {
        assert(zeros + digits =~= Seq::<char>::empty());
    }
}

/// The digits of a slot name spell the frame's index.
pub proof fn padded_index_reads_back(index: nat, width: nat)
    ensures
        number_of(zero_padded(index, width)) == index,
{
    decimal_reads_back(index);
    let digits = decimal(index);
    if digits.len() < width {
        zeros_spell_nothing(Seq::new((width - digits.len()) as nat, |i: int| '0'), digits);
    }
}

/// Every frame has a slot of its own: two frames with the same slot name are
/// the same frame.
pub proof fn slots_are_not_shared(first: nat, second: nat)
    requires
        slot_name(first) == slot_name(second),
    ensures
        first == second,
{
    let a = zero_padded(first, 5);
    let b = zero_padded(second, 5);
    let front = "frame_"@;
    let back = ".png"@;
    assert((front + a + back).len() == (front + b + back).len());
    assert(a =~= (front + a + back).subrange(front.len() as int, (front.len() + a.len()) as int));
    assert(b =~= (front + b + back).subrange(front.len() as int, (front.len() + b.len()) as int));
    padded_index_reads_back(first, 5);
    padded_index_reads_back(second, 5);
}

} // verus!
