//! The render scheduler's per-node step: once per fixed tick, decide
//! whether a node's accumulated virtual time has reached its frame
//! interval, and if so which pixel payload to send.
//!
//! A node in color mode renders as a single-frame sequence at one frame
//! per second. A node pointing at an animation the store no longer holds,
//! or at a frame index past the end of a replaced animation, produces no
//! output and has its cursor reset — a routine condition, not an error.
//! The accumulator carries its remainder forward so that playback does not
//! drift over long runs.
use vstd::prelude::*;

verus! {

use crate::animation_handler::{AnimationHandler, anim_idx, has_anim};
use crate::client::{Client, RenderMode, RenderModeV};
use crate::codec::{Command, CommandV, Output, OutputV};
use crate::messages::{Animation, AnimationFrame, FRAME_BYTES};

/// Milliseconds of virtual time one render tick stands for.
pub const TICK_MS: u64 = 33;

/// Protocol-defined count of bytes stripped from the front of the
/// flattened pixel buffer when an Output payload is framed.
pub const OUTPUT_SKIP: usize = 12;

/// Byte count of every Output payload: a flattened frame less the
/// stripped prefix.
pub const OUTPUT_PAYLOAD_LEN: usize = 450;

/// Port-address every Output is sent to.
pub const OUTPUT_PORT_ADDRESS: u16 = 1;

/// Milliseconds between two frames at a playback rate.
pub open spec fn ms_per_frame(fps: u8) -> int {
    1000int / (fps as int)
}

/// The flattened single-color frame: one color at every pixel, three
/// channels per pixel.
pub open spec fn spec_color_flat(r: u8, g: u8, b: u8) -> Seq<u8> {
    Seq::new(
        FRAME_BYTES as nat,
        |k: int|
            if k % 3 == 0 {
                r
            } else if k % 3 == 1 {
                g
            } else {
                b
            },
    )
}

/// Byte `k` of a flattened frame grid, read row-major, three bytes per
/// pixel.
pub open spec fn spec_frame_byte(f: AnimationFrame, k: int) -> u8 {
    let row = k / 21;
    let rest = k % 21;
    let col = rest / 3;
    let chan = rest % 3;
    let px = f@[row]@[col];
    if chan == 0 {
        px.0
    } else if chan == 1 {
        px.1
    } else {
        px.2
    }
}

/// The flattened form of a frame grid.
pub open spec fn spec_frame_flat(f: AnimationFrame) -> Seq<u8> {
    Seq::new(FRAME_BYTES as nat, |k: int| spec_frame_byte(f, k))
}

/// What a node's mode resolves to this tick: the flattened content, the
/// playback rate, and the frame count — or nothing, when the node points
/// at an animation that is absent, empty, too short for its cursor, or of
/// rate zero.
pub open spec fn spec_resolve(c: Client, anims: Seq<Animation>) -> Option<(Seq<u8>, u8, int)> {
    match c.current@ {
        RenderModeV::Color(r, g, b) => Some((spec_color_flat(r, g, b), 1u8, 1int)),
        RenderModeV::Animation(name) => {
            if !has_anim(anims, name) {
                None
            } else {
                let a = anims[anim_idx(anims, name)];
                if a.fps < 1 || c.current_animation_frame >= a.frames@.len() {
                    None
                } else {
                    Some(
                        (
                            spec_frame_flat(a.frames@[c.current_animation_frame as int]),
                            a.fps,
                            a.frames@.len() as int,
                        ),
                    )
                }
            }
        },
    }
}

/// Whether the node emits a frame this tick: its content resolves and the
/// accumulated time reaches its frame interval.
pub open spec fn spec_emits(c: Client, anims: Seq<Animation>) -> bool {
    match spec_resolve(c, anims) {
        Some(t) => c.millis_since_last_frame + TICK_MS >= ms_per_frame(t.1),
        None => false,
    }
}

/// The node's state after one tick: content that does not resolve resets
/// the cursor; otherwise the tick's milliseconds accumulate, and a sent
/// frame subtracts one frame interval — keeping the remainder — and
/// advances the cursor around the sequence.
pub open spec fn spec_step(c: Client, anims: Seq<Animation>) -> Client {
    match spec_resolve(c, anims) {
        None => Client { current_animation_frame: 0, ..c },
        Some(t) => {
            let acc = c.millis_since_last_frame + TICK_MS;
            let mpf = ms_per_frame(t.1);
            if acc >= mpf {
                Client {
                    millis_since_last_frame: (acc - mpf) as u64,
                    current_animation_frame: ((c.current_animation_frame + 1) as int % t.2) as usize,
                    ..c
                }
            } else {
                Client { millis_since_last_frame: acc as u64, ..c }
            }
        },
    }
}

/// The payload of the frame the node emits this tick.
pub open spec fn spec_payload(c: Client, anims: Seq<Animation>) -> Seq<u8> {
    match spec_resolve(c, anims) {
        Some(t) => t.0.skip(OUTPUT_SKIP as int),
        None => Seq::empty(),
    }
}

/// The whole Output command the node emits this tick.
pub open spec fn spec_out_cmd(c: Client, anims: Seq<Animation>) -> CommandV {
    CommandV::Output(
        OutputV {
            version: seq![0u8, 14u8],
            sequence: 0,
            physical: 0,
            port_address: OUTPUT_PORT_ADDRESS,
            length: OUTPUT_PAYLOAD_LEN as u16,
            data: spec_payload(c, anims),
        },
    )
}

/// The flattened single-color frame.
fn color_flat(r: u8, g: u8, b: u8) -> (v: Vec<u8>)
    ensures
        v@ == spec_color_flat(r, g, b),
{
    let mut v: Vec<u8> = Vec::new();
    let mut k: usize = 0;
    while k < 154
        invariant
            0 <= k <= 154,
            v@.len() == 3 * k,
            forall|m: int| 0 <= m < v@.len() ==> v@[m] == spec_color_flat(r, g, b)[m],
        decreases 154 - k,
    {
        proof {
            vstd::arithmetic::div_mod::lemma_fundamental_div_mod_converse_mod(
                3 * (k as int),
                3,
                k as int,
                0,
            );
            vstd::arithmetic::div_mod::lemma_fundamental_div_mod_converse_mod(
                3 * (k as int) + 1,
                3,
                k as int,
                1,
            );
            vstd::arithmetic::div_mod::lemma_fundamental_div_mod_converse_mod(
                3 * (k as int) + 2,
                3,
                k as int,
                2,
            );
        }
        v.push(r);
        v.push(g);
        v.push(b);
        k = k + 1;
    }
    assert(v@ =~= spec_color_flat(r, g, b));
    v
}

/// Flatten a frame grid, row-major, three bytes per pixel: the explicit,
/// bounds-checked form of reading the device's pixel buffer.
fn flatten_frame(f: &AnimationFrame) -> (v: Vec<u8>)
    ensures
        v@ == spec_frame_flat(*f),
{
    let mut v: Vec<u8> = Vec::new();
    let mut i: usize = 0;
    while i < 22
        invariant
            0 <= i <= 22,
            v@.len() == 21 * i,
            forall|m: int| 0 <= m < v@.len() ==> v@[m] == spec_frame_byte(*f, m),
        decreases 22 - i,
    {
        let row = f[i];
        let mut j: usize = 0;
        while j < 7
            invariant
                0 <= j <= 7,
                0 <= i < 22,
                row == f@[i as int],
                v@.len() == 21 * i + 3 * j,
                forall|m: int| 0 <= m < v@.len() ==> v@[m] == spec_frame_byte(*f, m),
            decreases 7 - j,
        {
            let px = row[j];
            proof {
                let base = 21 * (i as int) + 3 * (j as int);
                assert(0 <= 3 * (j as int) < 21);
                vstd::arithmetic::div_mod::lemma_fundamental_div_mod_converse_div(
                    base,
                    21,
                    i as int,
                    3 * (j as int),
                );
                vstd::arithmetic::div_mod::lemma_fundamental_div_mod_converse_mod(
                    base,
                    21,
                    i as int,
                    3 * (j as int),
                );
                vstd::arithmetic::div_mod::lemma_fundamental_div_mod_converse_div(
                    base + 1,
                    21,
                    i as int,
                    3 * (j as int) + 1,
                );
                vstd::arithmetic::div_mod::lemma_fundamental_div_mod_converse_mod(
                    base + 1,
                    21,
                    i as int,
                    3 * (j as int) + 1,
                );
                vstd::arithmetic::div_mod::lemma_fundamental_div_mod_converse_div(
                    base + 2,
                    21,
                    i as int,
                    3 * (j as int) + 2,
                );
                vstd::arithmetic::div_mod::lemma_fundamental_div_mod_converse_mod(
                    base + 2,
                    21,
                    i as int,
                    3 * (j as int) + 2,
                );
                vstd::arithmetic::div_mod::lemma_fundamental_div_mod_converse_div(
                    3 * (j as int),
                    3,
                    j as int,
                    0,
                );
                vstd::arithmetic::div_mod::lemma_fundamental_div_mod_converse_mod(
                    3 * (j as int),
                    3,
                    j as int,
                    0,
                );
                vstd::arithmetic::div_mod::lemma_fundamental_div_mod_converse_div(
                    3 * (j as int) + 1,
                    3,
                    j as int,
                    1,
                );
                vstd::arithmetic::div_mod::lemma_fundamental_div_mod_converse_mod(
                    3 * (j as int) + 1,
                    3,
                    j as int,
                    1,
                );
                vstd::arithmetic::div_mod::lemma_fundamental_div_mod_converse_div(
                    3 * (j as int) + 2,
                    3,
                    j as int,
                    2,
                );
                vstd::arithmetic::div_mod::lemma_fundamental_div_mod_converse_mod(
                    3 * (j as int) + 2,
                    3,
                    j as int,
                    2,
                );
            }
            v.push(px.0);
            v.push(px.1);
            v.push(px.2);
            j = j + 1;
        }
        i = i + 1;
    }
    assert(v@ =~= spec_frame_flat(*f));
    v
}

/// Run one node through one tick: mutate its accumulator and cursor as
/// the step semantics say, and hand back the Output command to transmit
/// when one is due.
pub fn render_client(client: &mut Client, store: &AnimationHandler) -> (r: Option<Command>)
    requires
        old(client).millis_since_last_frame + TICK_MS <= u64::MAX,
    ensures
        *final(client) == spec_step(*old(client), store.animations@),
        r is Some <==> spec_emits(*old(client), store.animations@),
        r matches Some(cmd) ==> cmd@ == spec_out_cmd(*old(client), store.animations@),
{
    let (flat, fps, frame_count): (Vec<u8>, u8, usize) = match &client.current {
        RenderMode::Color(r, g, b) => (color_flat(*r, *g, *b), 1u8, 1usize),
        RenderMode::Animation(name) => {
            match store.find(name) {
                Some(anim) => {
                    if anim.fps < 1 || client.current_animation_frame >= anim.frames.len() {
                        client.current_animation_frame = 0;
                        return None;
                    }
                    let flat = flatten_frame(&anim.frames[client.current_animation_frame]);
                    (flat, anim.fps, anim.frames.len())
                },
                None => {
                    client.current_animation_frame = 0;
                    return None;
                },
            }
        },
    };
    let acc = client.millis_since_last_frame + TICK_MS;
    let mpf = 1000u64 / (fps as u64);
    if acc < mpf {
        client.millis_since_last_frame = acc;
        return None;
    }
    client.millis_since_last_frame = acc - mpf;
    let mut flat = flat;
    let data = flat.split_off(OUTPUT_SKIP);
    let message = Output {
        version: [0u8, 14u8],
        sequence: 0,
        physical: 0,
        port_address: OUTPUT_PORT_ADDRESS,
        length: OUTPUT_PAYLOAD_LEN as u16,
        data,
    };
    let cursor = client.current_animation_frame;
    assert(frame_count == 1 || cursor < frame_count);
    let next: usize = if cursor >= frame_count - 1 {
        0
    } else {
        cursor + 1
    };
    proof {
        let cnt = frame_count as int;
        let cu = cursor as int;
        if cu + 1 >= cnt {
            assert(cu + 1 == cnt || cnt == 1);
            if cu + 1 == cnt {
                vstd::arithmetic::div_mod::lemma_mod_self_0(cnt);
            } else {
                assert((cu + 1) % 1 == 0) by {
                    vstd::arithmetic::div_mod::lemma_fundamental_div_mod_converse_mod(
                        cu + 1,
                        1,
                        cu + 1,
                        0,
                    );
                }
            }
        } else {
            vstd::arithmetic::div_mod::lemma_small_mod((cu + 1) as nat, cnt as nat);
        }
        assert(next as int == (cu + 1) % cnt);
    }
    client.current_animation_frame = next;
    proof {
        assert(message.version@ =~= seq![0u8, 14u8]);
    }
    Some(Command::Output(message))
}

/// One tick of the rate accumulator alone: the accumulator after the
/// tick, and whether a frame went out.
pub open spec fn rate_step(acc: int, t: int, mpf: int) -> (int, int) {
    if acc + t >= mpf {
        (acc + t - mpf, 1)
    } else {
        (acc + t, 0)
    }
}

/// The accumulator after `n` ticks of size `t` against frame interval
/// `mpf`.
pub open spec fn acc_after(acc0: int, t: int, mpf: int, n: nat) -> int
    decreases n,
{
    if n == 0 {
        acc0
    } else {
        acc_after(rate_step(acc0, t, mpf).0, t, mpf, (n - 1) as nat)
    }
}

/// How many frames go out over `n` ticks.
pub open spec fn sends_after(acc0: int, t: int, mpf: int, n: nat) -> int
    decreases n,
{
    if n == 0 {
        0
    } else {
        rate_step(acc0, t, mpf).1 + sends_after(rate_step(acc0, t, mpf).0, t, mpf, (n - 1) as nat)
    }
}

/// The accumulator is conserved: what flowed in over `n` ticks either
/// went out as whole frame intervals or still sits in the accumulator,
/// which never exceeds one interval.
proof fn lemma_rate_invariant(acc0: int, t: int, mpf: int, n: nat)
    requires
        0 < t <= mpf,
        0 <= acc0 <= mpf,
    ensures
        0 <= acc_after(acc0, t, mpf, n) <= mpf,
        acc0 + n * t == sends_after(acc0, t, mpf, n) * mpf + acc_after(acc0, t, mpf, n),
    decreases n,
{
    if n == 0 {
        assert(acc0 + n * t == acc0) by (nonlinear_arith)
            requires
                n == 0,
        ;
    } else {
        let step = rate_step(acc0, t, mpf);
        let acc1 = step.0;
        let m = (n - 1) as nat;
        lemma_rate_invariant(acc1, t, mpf, m);
        assert(acc0 + n * t == (acc1 + step.1 * mpf) + m * t) by (nonlinear_arith)
            requires
                n >= 1,
                m == n - 1,
                acc1 + step.1 * mpf == acc0 + t,
        ;
        assert(sends_after(acc0, t, mpf, n) * mpf == step.1 * mpf + sends_after(
            acc1,
            t,
            mpf,
            m,
        ) * mpf) by (nonlinear_arith)
            requires
                sends_after(acc0, t, mpf, n) == step.1 + sends_after(acc1, t, mpf, m),
        ;
    }
}

/// Rate fidelity for the bare accumulator: over `n` ticks of size `t`,
/// a node at `f` frames per second sends within one frame of
/// `n * t * f / 1000`, for every rate that divides the second evenly and
/// every tick no coarser than the frame interval.
pub proof fn lemma_rate_fidelity(acc0: int, t: int, f: u8, n: nat)
    requires
        f >= 1,
        1000int % (f as int) == 0,
        0 < t <= 1000int / (f as int),
        0 <= acc0 <= 1000int / (f as int),
    ensures
        n * t * (f as int) / 1000 - 1 <= sends_after(acc0, t, 1000int / (f as int), n),
        sends_after(acc0, t, 1000int / (f as int), n) <= n * t * (f as int) / 1000 + 1,
{
    let fi = f as int;
    let mpf = 1000int / fi;
    vstd::arithmetic::div_mod::lemma_fundamental_div_mod(1000int, fi);
    assert(fi * mpf == 1000);
    assert(mpf >= 1);
    lemma_rate_invariant(acc0, t, mpf, n);
    let s = sends_after(acc0, t, mpf, n);
    let a = acc_after(acc0, t, mpf, n);
    let tt = n * t;
    assert(tt >= 0) by (nonlinear_arith)
        requires
            t > 0,
            n >= 0,
            tt == n * t,
    ;
    vstd::arithmetic::div_mod::lemma_fundamental_div_mod(tt, mpf);
    let q = tt / mpf;
    let r = tt % mpf;
    assert(0 <= r < mpf);
    // n*t*f/1000 is exactly q, because the interval divides the second.
    assert(tt * fi == q * (mpf * fi) + r * fi) by (nonlinear_arith)
        requires
            tt == q * mpf + r,
    ;
    assert(0 <= r * fi < mpf * fi) by (nonlinear_arith)
        requires
            0 <= r < mpf,
            fi >= 1,
    ;
    assert(mpf * fi == 1000);
    vstd::arithmetic::div_mod::lemma_fundamental_div_mod_converse_div(tt * fi, 1000, q, r * fi);
    assert(tt * fi / 1000 == q);
    assert(n * t * fi == tt * fi);
    // The conservation identity pins the send count to q or q + 1.
    assert(s * mpf == acc0 + tt - a);
    assert(q * mpf == tt - r);
    assert(q - 1 <= s <= q + 1) by (nonlinear_arith)
        requires
            s * mpf == acc0 + tt - a,
            q * mpf == tt - r,
            0 <= acc0 <= mpf,
            0 <= a <= mpf,
            0 <= r < mpf,
            mpf >= 1,
    ;
}

/// Whether a node resolves to content at rate `f` — the premise under
/// which its playback rate is meaningful at all.
pub open spec fn steady(c: Client, anims: Seq<Animation>, f: u8) -> bool {
    match spec_resolve(c, anims) {
        Some(t) => t.1 == f,
        None => false,
    }
}

/// The node after `n` whole ticks.
pub open spec fn run_steps(c: Client, anims: Seq<Animation>, n: nat) -> Client
    decreases n,
{
    if n == 0 {
        c
    } else {
        run_steps(spec_step(c, anims), anims, (n - 1) as nat)
    }
}

/// How many frames the node emits over `n` ticks.
pub open spec fn run_sends(c: Client, anims: Seq<Animation>, n: nat) -> int
    decreases n,
{
    if n == 0 {
        0
    } else {
        (if spec_emits(c, anims) {
            1int
        } else {
            0int
        }) + run_sends(spec_step(c, anims), anims, (n - 1) as nat)
    }
}

/// A steadily-resolving node stays steady across a tick, and the tick
/// moves its accumulator exactly as the bare rate step does.
proof fn lemma_step_steady(c: Client, anims: Seq<Animation>, f: u8)
    requires
        steady(c, anims, f),
        f >= 1,
        c.millis_since_last_frame + TICK_MS <= u64::MAX,
        ms_per_frame(f) <= u64::MAX,
    ensures
        steady(spec_step(c, anims), anims, f),
        spec_step(c, anims).millis_since_last_frame == rate_step(
            c.millis_since_last_frame as int,
            TICK_MS as int,
            ms_per_frame(f),
        ).0,
        spec_emits(c, anims) == (rate_step(
            c.millis_since_last_frame as int,
            TICK_MS as int,
            ms_per_frame(f),
        ).1 == 1),
        spec_step(c, anims).millis_since_last_frame + TICK_MS <= u64::MAX ==> true,
{
    let t = spec_resolve(c, anims)->Some_0;
    let c1 = spec_step(c, anims);
    assert(c1.current == c.current);
    match c.current@ {
        RenderModeV::Color(rr, gg, bb) => {
            assert(spec_resolve(c1, anims) is Some);
        },
        RenderModeV::Animation(name) => {
            let a = anims[anim_idx(anims, name)];
            assert(t.2 == a.frames@.len());
            assert(t.2 >= 1);
            vstd::arithmetic::div_mod::lemma_mod_bound(
                c.current_animation_frame + 1,
                a.frames@.len() as int,
            );
            assert(0 <= (c.current_animation_frame + 1) as int % (t.2) < t.2);
            assert(c1.current_animation_frame < a.frames@.len());
            assert(spec_resolve(c1, anims) is Some);
        },
    }
}

/// Rate fidelity for the scheduler itself: a node that stays on one
/// animation (or color) at rate `f`, starting with at most one frame
/// interval accumulated, emits within one frame of
/// `n * TICK_MS * f / 1000` over any `n` ticks — playback does not drift.
pub proof fn lemma_scheduler_rate_fidelity(c: Client, anims: Seq<Animation>, f: u8, n: nat)
    requires
        steady(c, anims, f),
        f >= 1,
        1000int % (f as int) == 0,
        TICK_MS as int <= ms_per_frame(f),
        c.millis_since_last_frame as int <= ms_per_frame(f),
    ensures
        n * (TICK_MS as int) * (f as int) / 1000 - 1 <= run_sends(c, anims, n),
        run_sends(c, anims, n) <= n * (TICK_MS as int) * (f as int) / 1000 + 1,
{
    lemma_run_matches_rate(c, anims, f, n);
    lemma_rate_fidelity(c.millis_since_last_frame as int, TICK_MS as int, f, n);
}

/// Over `n` ticks, the scheduler's emissions are exactly the bare rate
/// accumulator's.
proof fn lemma_run_matches_rate(c: Client, anims: Seq<Animation>, f: u8, n: nat)
    requires
        steady(c, anims, f),
        f >= 1,
        TICK_MS as int <= ms_per_frame(f),
        c.millis_since_last_frame as int <= ms_per_frame(f),
    ensures
        run_sends(c, anims, n) == sends_after(
            c.millis_since_last_frame as int,
            TICK_MS as int,
            ms_per_frame(f),
            n,
        ),
    decreases n,
{
    if n > 0 {
        let mpf = ms_per_frame(f);
        assert(mpf <= 1000);
        lemma_step_steady(c, anims, f);
        let c1 = spec_step(c, anims);
        assert(0 <= rate_step(c.millis_since_last_frame as int, TICK_MS as int, mpf).0 <= mpf);
        lemma_run_matches_rate(c1, anims, f, (n - 1) as nat);
    }
}

/// A node pointing at an animation the store does not hold emits nothing
/// and comes out of the tick with its cursor reset; nothing else of it
/// changes and no error arises.
pub proof fn lemma_missing_animation(c: Client, anims: Seq<Animation>, name: Seq<char>)
    requires
        c.current@ == RenderModeV::Animation(name),
        !has_anim(anims, name),
    ensures
        !spec_emits(c, anims),
        spec_step(c, anims) == (Client { current_animation_frame: 0, ..c }),
{
}

} // verus!
