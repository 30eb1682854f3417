use vstd::prelude::*;

use vstd::arithmetic::div_mod::{
    lemma_div_is_ordered, lemma_div_multiples_vanish, lemma_multiply_divide_lt,
};
use vstd::string::StringExecFns;

verus! {

/// What one recorded frame comes to, at the specification level: which
/// frame it is, the file name it is written under, the synthetic time
/// (an exact rational, `time_num / time_den` seconds) fed to the shader,
/// and how many bytes of decoded RGBA the frame holds.
pub ghost struct FrameRecord {
    pub index: int,
    pub name: Seq<char>,
    pub time_num: int,
    pub time_den: int,
    pub byte_len: int,
}

/// One planned frame of a recording run, as executable data.
pub struct FrameOutput {
    pub index: i32,
    pub name: String,
    pub time_num: i32,
    pub time_den: u32,
    pub byte_len: u64,
}

impl View for FrameOutput {
    type V = FrameRecord;

    open spec fn view(&self) -> FrameRecord {
        FrameRecord {
            index: self.index as int,
            name: self.name@,
            time_num: self.time_num as int,
            time_den: self.time_den as int,
            byte_len: self.byte_len as int,
        }
    }
}

/// A recorder: something that renders and writes out one frame per call.
/// `outputs` is everything recorded so far, in order; `output_for` is what
/// one call for frame `i` adds, fixed ahead of time so that a whole run is
/// reproducible frame by frame.
pub trait RecordState: Sized {
    spec fn outputs(&self) -> Seq<FrameRecord>;

    spec fn output_for(&self, i: i32) -> FrameRecord;

    fn record(&mut self, i: i32)
        requires
            0 <= i,
        ensures
            final(self).outputs() == old(self).outputs().push(old(self).output_for(i)),
            forall|j: i32| #[trigger] final(self).output_for(j) == old(self).output_for(j),
    ;
}

/// Record-mode batch driver: record frames `0 .. frames`, in order, one
/// output per frame. The recorder is returned so the run's outputs can be
/// read back; a non-positive count records nothing.
pub fn record<S: RecordState>(state: S, frames: i32) -> (r: S)
    ensures
        r.outputs() == state.outputs() + Seq::new(
            if frames >= 0 {
                frames as nat
            } else {
                0
            },
            |k: int| state.output_for(k as i32),
        ),
        forall|j: i32| #[trigger] r.output_for(j) == state.output_for(j),
{
    let ghost orig = state;
    let mut s = state;
    proof {
        assert(orig.outputs() + Seq::new(0nat, |k: int| orig.output_for(k as i32))
            =~= orig.outputs());
    }
    let mut i: i32 = 0;
    while i < frames
        invariant
            0 <= i,
            frames >= 0 ==> i <= frames,
            frames < 0 ==> i == 0,
            s.outputs() == orig.outputs() + Seq::new(
                i as nat,
                |k: int| orig.output_for(k as i32),
            ),
            forall|j: i32| #[trigger] s.output_for(j) == orig.output_for(j),
        decreases frames - i,
    {
        s.record(i);
        i = i + 1;
        proof {
            assert(Seq::new(i as nat, |k: int| orig.output_for(k as i32)) =~= Seq::new(
                (i - 1) as nat,
                |k: int| orig.output_for(k as i32),
            ).push(orig.output_for((i - 1) as i32)));
            assert(s.outputs() =~= orig.outputs() + Seq::new(
                i as nat,
                |k: int| orig.output_for(k as i32),
            ));
        }
    }
    s
}

/// 10^k.
pub open spec fn pow10(k: nat) -> nat
    decreases k,
{
    if k == 0 {
        1
    } else {
        10 * pow10((k - 1) as nat)
    }
}

proof fn lemma_pow10_values()
    ensures
        pow10(0) == 1,
        pow10(1) == 10,
        pow10(2) == 100,
        pow10(3) == 1000,
        pow10(4) == 10000,
        pow10(5) == 100000,
        pow10(6) == 1000000,
        pow10(7) == 10000000,
        pow10(8) == 100000000,
        pow10(9) == 1000000000,
        pow10(10) == 10000000000,
{
    reveal_with_fuel(pow10, 12);
}

proof fn lemma_pow10_pos(k: nat)
    ensures
        pow10(k) >= 1,
    decreases k,
{
    if k > 0 {
        lemma_pow10_pos((k - 1) as nat);
    }
}

/// The character for one decimal digit.
pub open spec fn digit_char(d: nat) -> char {
    if d == 0 {
        '0'
    } else if d == 1 {
        '1'
    } else if d == 2 {
        '2'
    } else if d == 3 {
        '3'
    } else if d == 4 {
        '4'
    } else if d == 5 {
        '5'
    } else if d == 6 {
        '6'
    } else if d == 7 {
        '7'
    } else if d == 8 {
        '8'
    } else {
        '9'
    }
}

/// The decimal digits of `n`, most significant first.
pub open spec fn dec_digits(n: nat) -> Seq<char>
    decreases n,
{
    if n < 10 {
        seq![digit_char(n)]
    } else {
        dec_digits(n / 10).push(digit_char(n % 10))
    }
}

/// A number below 10^k has at most k decimal digits.
proof fn lemma_dec_digits_len_upper(n: nat, k: nat)
    requires
        k >= 1,
        n < pow10(k),
    ensures
        dec_digits(n).len() <= k,
    decreases n,
{
    if n >= 10 {
        assert(pow10(k) == 10 * pow10((k - 1) as nat));
        assert(pow10(0) == 1);
        lemma_multiply_divide_lt(n as int, 10, pow10((k - 1) as nat) as int);
        lemma_dec_digits_len_upper(n / 10, (k - 1) as nat);
    }
}

/// A number at least 10^k has more than k decimal digits.
proof fn lemma_dec_digits_len_lower(n: nat, k: nat)
    requires
        n >= pow10(k),
    ensures
        dec_digits(n).len() >= k + 1,
    decreases k,
{
    if k > 0 {
        assert(pow10(k) == 10 * pow10((k - 1) as nat));
        lemma_pow10_pos((k - 1) as nat);
        lemma_div_is_ordered((10 * pow10((k - 1) as nat)) as int, n as int, 10);
        lemma_div_multiples_vanish(pow10((k - 1) as nat) as int, 10);
        lemma_dec_digits_len_lower(n / 10, (k - 1) as nat);
    }
}

/// The file name of frame `i`: its decimal digits, left-padded with zeros
/// to at least eight characters.
pub open spec fn frame_name_spec(i: nat) -> Seq<char> {
    let ds = dec_digits(i);
    if ds.len() < 8 {
        Seq::new((8 - ds.len()) as nat, |k: int| '0') + ds
    } else {
        ds
    }
}

/// One decimal digit as a borrowed string.
fn digit_str(d: u32) -> (r: &'static str)
    requires
        d < 10,
    ensures
        r@.len() == 1,
        r@[0] == digit_char(d as nat),
{
    proof {
        reveal_strlit("0");
        reveal_strlit("1");
        reveal_strlit("2");
        reveal_strlit("3");
        reveal_strlit("4");
        reveal_strlit("5");
        reveal_strlit("6");
        reveal_strlit("7");
        reveal_strlit("8");
        reveal_strlit("9");
    }
    if d == 0 {
        "0"
    } else if d == 1 {
        "1"
    } else if d == 2 {
        "2"
    } else if d == 3 {
        "3"
    } else if d == 4 {
        "4"
    } else if d == 5 {
        "5"
    } else if d == 6 {
        "6"
    } else if d == 7 {
        "7"
    } else if d == 8 {
        "8"
    } else {
        "9"
    }
}

/// Append the decimal digits of `n`, most significant first.
fn append_decimal(n: u32, out: &mut String)
    ensures
        final(out)@ == old(out)@ + dec_digits(n as nat),
    decreases n,
{
    if n < 10 {
        let d = digit_str(n);
        out.append(d);
        proof {
            assert(d@ =~= dec_digits(n as nat));
            assert(out@ =~= old(out)@ + dec_digits(n as nat));
        }
    } else {
        append_decimal(n / 10, out);
        let d = digit_str(n % 10);
        out.append(d);
        proof {
            assert(out@ =~= old(out)@ + dec_digits(n as nat));
        }
    }
}

/// The file name of frame `i`, exactly as record mode writes it: the
/// frame's decimal index, left-padded with zeros to eight characters.
pub fn frame_name(i: i32) -> (r: String)
    requires
        0 <= i,
    ensures
        r@ == frame_name_spec(i as nat),
{
    let n = i as u32;
    proof {
        lemma_pow10_values();
        if n < 10 {
            lemma_dec_digits_len_upper(n as nat, 1);
        } else if n < 100 {
            lemma_dec_digits_len_upper(n as nat, 2);
            lemma_dec_digits_len_lower(n as nat, 1);
        } else if n < 1000 {
            lemma_dec_digits_len_upper(n as nat, 3);
            lemma_dec_digits_len_lower(n as nat, 2);
        } else if n < 10000 {
            lemma_dec_digits_len_upper(n as nat, 4);
            lemma_dec_digits_len_lower(n as nat, 3);
        } else if n < 100000 {
            lemma_dec_digits_len_upper(n as nat, 5);
            lemma_dec_digits_len_lower(n as nat, 4);
        } else if n < 1000000 {
            lemma_dec_digits_len_upper(n as nat, 6);
            lemma_dec_digits_len_lower(n as nat, 5);
        } else if n < 10000000 {
            lemma_dec_digits_len_upper(n as nat, 7);
            lemma_dec_digits_len_lower(n as nat, 6);
        } else if n < 100000000 {
            lemma_dec_digits_len_upper(n as nat, 8);
            lemma_dec_digits_len_lower(n as nat, 7);
        } else {
            lemma_dec_digits_len_lower(n as nat, 8);
        }
    }
    let pad: u32 = if n < 10 {
        7
    } else if n < 100 {
        6
    } else if n < 1000 {
        5
    } else if n < 10000 {
        4
    } else if n < 100000 {
        3
    } else if n < 1000000 {
        2
    } else if n < 10000000 {
        1
    } else {
        0
    };
    let mut s = String::new();
    proof {
        assert(s@ =~= Seq::new(0nat, |j: int| '0'));
        reveal_strlit("0");
    }
    let mut k: u32 = 0;
    while k < pad
        invariant
            k <= pad,
            pad <= 7,
            s@ == Seq::new(k as nat, |j: int| '0'),
        decreases pad - k,
    {
        s.append("0");
        k = k + 1;
        proof {
            reveal_strlit("0");
            assert(s@ =~= Seq::new(k as nat, |j: int| '0'));
        }
    }
    append_decimal(n, &mut s);
    proof {
        assert(s@ =~= frame_name_spec(i as nat));
    }
    s
}

/// The staging buffer's byte count for a square RGBA8 texture: four bytes
/// per pixel. The size computation is 32-bit, so the product must fit a
/// 32-bit word.
pub fn output_buffer_len(texture_size: u32) -> (r: u64)
    requires
        4 * texture_size * texture_size <= u32::MAX,
    ensures
        r == 4 * texture_size * texture_size,
{
    proof {
        if texture_size >= 1 {
            assert(4 * texture_size <= 4 * texture_size * texture_size) by (nonlinear_arith)
                requires
                    texture_size >= 1,
            ;
        }
    }
    let bytes: u32 = 4 * texture_size * texture_size;
    bytes as u64
}

/// The row stride handed to the texture-to-buffer copy: four bytes per
/// pixel, one row of `texture_size` pixels.
pub fn bytes_per_row(texture_size: u32) -> (r: u32)
    requires
        4 * texture_size <= u32::MAX,
    ensures
        r == 4 * texture_size,
{
    4 * texture_size
}

/// Whether a mapped readback of `len` bytes is exactly one tightly packed
/// RGBA8 frame for a square texture of edge `texture_size` — the condition
/// under which the image encoder accepts the buffer.
pub fn frame_bytes_ok(len: u64, texture_size: u32) -> (r: bool)
    requires
        4 * texture_size * texture_size <= u32::MAX,
    ensures
        r == (len == 4 * texture_size * texture_size),
{
    len == output_buffer_len(texture_size)
}

/// The verified recorder model: it plans what each frame of a run comes to
/// — name, synthetic time, byte count — without touching a device. The
/// real recorder in front of the GPU follows this plan frame for frame.
pub struct FramePlan {
    pub texture_size: u32,
    pub frame_bytes: u32,
    pub entries: Vec<FrameOutput>,
}

impl FramePlan {
    /// The frame byte count matches the texture size.
    pub open spec fn wf(self) -> bool {
        self.frame_bytes == 4 * self.texture_size * self.texture_size
    }

    /// A fresh plan for `texture_size`-square frames. The staging buffer's
    /// byte count is computed in 32-bit arithmetic, so it must fit.
    pub fn new(texture_size: u32) -> (p: FramePlan)
        requires
            4 * texture_size * texture_size <= u32::MAX,
        ensures
            p.wf(),
            p.texture_size == texture_size,
            p.outputs() == Seq::<FrameRecord>::empty(),
    {
        let bytes64 = output_buffer_len(texture_size);
        let p = FramePlan {
            texture_size,
            frame_bytes: bytes64 as u32,
            entries: Vec::new(),
        };
        proof {
            assert(p.outputs() =~= Seq::<FrameRecord>::empty());
        }
        p
    }
}

impl RecordState for FramePlan {
    /// Everything planned so far, in order.
    open spec fn outputs(&self) -> Seq<FrameRecord> {
        self.entries@.map_values(|o: FrameOutput| o@)
    }

    /// Frame `i` of a run: named by the zero-padded eight-digit decimal of
    /// `i`, at synthetic time `i / 30` seconds, with four bytes per pixel.
    open spec fn output_for(&self, i: i32) -> FrameRecord {
        FrameRecord {
            index: i as int,
            name: frame_name_spec(i as nat),
            time_num: i as int,
            time_den: 30,
            byte_len: self.frame_bytes as int,
        }
    }

    fn record(&mut self, i: i32) {
        let name = frame_name(i);
        let entry = FrameOutput {
            index: i,
            name,
            time_num: i,
            time_den: 30,
            byte_len: self.frame_bytes as u64,
        };
        self.entries.push(entry);
        proof {
            assert(self.outputs() =~= old(self).outputs().push(old(self).output_for(i)));
        }
    }
}

/// Plan a whole recording run of `frames` frames over a `texture_size`
/// square texture. The plan holds, in order, exactly one entry per frame
/// `0 .. frames`: frame k is named by the zero-padded eight-digit decimal
/// of k, carries the synthetic time `k / 30` seconds, and reads back
/// exactly `texture_size * texture_size * 4` bytes of decoded RGBA.
pub fn plan_recording(texture_size: u32, frames: i32) -> (p: FramePlan)
    requires
        4 * texture_size * texture_size <= u32::MAX,
    ensures
        p.outputs().len() == if frames >= 0 {
            frames as int
        } else {
            0
        },
        forall|k: int|
            0 <= k < p.outputs().len() ==> {
                &&& (#[trigger] p.outputs()[k]).index == k
                &&& p.outputs()[k].name == frame_name_spec(k as nat)
                &&& p.outputs()[k].time_num == k
                &&& p.outputs()[k].time_den == 30
                &&& p.outputs()[k].byte_len == 4 * (texture_size as int) * (texture_size as int)
            },
{
    let start = FramePlan::new(texture_size);
    let ghost start_plan = start;
    let p = record(start, frames);
    proof {
        let n: int = if frames >= 0 {
            frames as int
        } else {
            0
        };
        assert(p.outputs() =~= Seq::new(n as nat, |k: int| start_plan.output_for(k as i32)));
        assert forall|k: int| 0 <= k < p.outputs().len() implies {
            &&& (#[trigger] p.outputs()[k]).index == k
            &&& p.outputs()[k].name == frame_name_spec(k as nat)
            &&& p.outputs()[k].time_num == k
            &&& p.outputs()[k].time_den == 30
            &&& p.outputs()[k].byte_len == 4 * (texture_size as int) * (texture_size as int)
        } by {
            assert(p.outputs()[k] == start_plan.output_for(k as i32));
        }
    }
    p
}

/// Law: in record mode the synthetic time fed to the shader for frame `i`
/// is exactly the rational `i / 30` — so frame 0 is at time 0, and frame
/// 30 is at exactly one second.
pub proof fn lemma_record_time_exact(p: FramePlan, i: i32)
    ensures
        p.output_for(i).time_num == i as int,
        p.output_for(i).time_den == 30,
        i == 0 ==> p.output_for(i).time_num == 0,
        i == 30 ==> p.output_for(i).time_num == p.output_for(i).time_den,
{
}

/// Law: a record run over frames `0 .. n` plans exactly `n` outputs, in
/// order: the k-th is frame k, named by the zero-padded eight-digit
/// decimal of k, at time `k / 30`, and sized at exactly
/// `texture_size * texture_size * 4` bytes of decoded RGBA.
pub proof fn lemma_record_run_exact(p: FramePlan, n: i32, outs: Seq<FrameRecord>)
    requires
        p.wf(),
        n >= 0,
        outs == Seq::new(n as nat, |k: int| p.output_for(k as i32)),
    ensures
        outs.len() == n,
        forall|k: int| 0 <= k < n ==> (#[trigger] outs[k]).index == k,
        forall|k: int| 0 <= k < n ==> (#[trigger] outs[k]).name == frame_name_spec(k as nat),
        forall|k: int|
            0 <= k < n ==> (#[trigger] outs[k]).byte_len == 4 * (p.texture_size as int) * (
            p.texture_size as int),
        forall|k: int|
            0 <= k < n ==> (#[trigger] outs[k]).time_num == k && outs[k].time_den == 30,
{
    assert forall|k: int| 0 <= k < n implies (#[trigger] outs[k]).index == k && outs[k].name
        == frame_name_spec(k as nat) && outs[k].byte_len == 4 * (p.texture_size as int) * (
    p.texture_size as int) && outs[k].time_num == k && outs[k].time_den == 30 by {
        assert(outs[k] == p.output_for(k as i32));
    }
}

} // verus!
