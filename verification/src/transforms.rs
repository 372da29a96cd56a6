//! The per-destination transform pipeline: an ordered list of stages, each
//! of which either passes the payload on (possibly rewritten) or drops it.
//! The pipeline stops at the first stage that drops.
use vstd::prelude::*;
use crate::config::TransformConfig;
use crate::stats::{counter_add, Stats};

verus! {

/// Outcome of one stage.
#[derive(Debug, Clone, PartialEq, Eq)]
pub enum Decision {
    /// Forward this payload (the input, or a rewrite of it).
    Pass(Vec<u8>),
    /// Discard the payload.
    Drop,
}

/// Drops payloads shorter than `n_bytes`.
#[derive(Debug, Clone, Copy, PartialEq, Eq, Structural)]
pub struct DropSmallerThan {
    pub n_bytes: usize,
}

/// Drops payloads longer than `n_bytes`.
#[derive(Debug, Clone, Copy, PartialEq, Eq, Structural)]
pub struct DropLargerThan {
    pub n_bytes: usize,
}

/// Reverses the byte order within each 16-bit word; drops payloads whose
/// length is not a multiple of 2.
#[derive(Debug, Clone, Copy, PartialEq, Eq, Structural)]
pub struct ByteSwap16;

/// Reverses the byte order within each 32-bit word; drops payloads whose
/// length is not a multiple of 4.
#[derive(Debug, Clone, Copy, PartialEq, Eq, Structural)]
pub struct ByteSwap32;

/// One stage of a pipeline.
#[derive(Debug, Clone, Copy, PartialEq, Eq, Structural)]
pub enum Transform {
    DropSmallerThan(DropSmallerThan),
    DropLargerThan(DropLargerThan),
    ByteSwap16(ByteSwap16),
    ByteSwap32(ByteSwap32),
}

/// The payload with the bytes of each `width`-byte word reversed.
pub open spec fn swap_words(p: Seq<u8>, width: int) -> Seq<u8> {
    Seq::new(p.len(), |i: int| p[i - i % width + (width - 1 - i % width)])
}

/// What a stage does to a payload: `Some` of the forwarded bytes, or `None`
/// when the stage drops it.
pub open spec fn stage_result(t: Transform, p: Seq<u8>) -> Option<Seq<u8>> {
    match t {
        Transform::DropSmallerThan(s) => if p.len() < s.n_bytes {
            None
        } else {
            Some(p)
        },
        Transform::DropLargerThan(s) => if p.len() > s.n_bytes {
            None
        } else {
            Some(p)
        },
        Transform::ByteSwap16(_) => if p.len() % 2 != 0 {
            None
        } else {
            Some(swap_words(p, 2))
        },
        Transform::ByteSwap32(_) => if p.len() % 4 != 0 {
            None
        } else {
            Some(swap_words(p, 4))
        },
    }
}

pub open spec fn decision_view(d: Decision) -> Option<Seq<u8>> {
    match d {
        Decision::Pass(v) => Some(v@),
        Decision::Drop => None,
    }
}

/// Runs the stages in order, stopping at the first that drops.
pub open spec fn pipeline_result(ts: Seq<Transform>, p: Seq<u8>) -> Option<Seq<u8>>
    decreases ts.len(),
{
    if ts.len() == 0 {
        Some(p)
    } else {
        match stage_result(ts[0], p) {
            Some(q) => pipeline_result(ts.drop_first(), q),
            None => None,
        }
    }
}

/// Where a byte of a swapped word comes from, and that it stays inside its
/// own word.
proof fn lemma_swap_source(i: int, w: int, len: int)
    requires
        w > 0,
        0 <= i < len,
        len % w == 0,
    ensures
        ({
            let j = i - i % w + (w - 1 - i % w);
            &&& 0 <= j < len
            &&& j % w == w - 1 - i % w
            &&& j - j % w == i - i % w
        }),
{
    let q = i / w;
    let r = i % w;
    vstd::arithmetic::div_mod::lemma_fundamental_div_mod(i, w);
    vstd::arithmetic::div_mod::lemma_fundamental_div_mod(len, w);
    vstd::arithmetic::mul::lemma_mul_is_commutative(w, q);
    assert(0 <= r < w) by {
        vstd::arithmetic::div_mod::lemma_mod_bound(i, w);
    }
    let j = q * w + (w - 1 - r);
    vstd::arithmetic::div_mod::lemma_fundamental_div_mod_converse(j, w, q, w - 1 - r);
    let k = len / w;
    assert(q * w + w <= len) by (nonlinear_arith)
        requires
            len == w * k,
            i == w * q + r,
            0 <= r < w,
            i < len,
            w > 0,
    ;
    assert(0 <= q) by (nonlinear_arith)
        requires
            i == w * q + r,
            0 <= i,
            r < w,
            w > 0,
    ;
    assert(0 <= q * w) by (nonlinear_arith)
        requires
            0 <= q,
            w > 0,
    ;
}

/// Swapping the bytes of each word twice gives back the payload.
pub proof fn law_swap_words_twice_restores(p: Seq<u8>, width: int)
    requires
        width == 2 || width == 4,
        (p.len() as int) % width == 0,
    ensures
        swap_words(swap_words(p, width), width) == p,
{
    let once = swap_words(p, width);
    let twice = swap_words(once, width);
    assert forall|i: int| 0 <= i < p.len() implies twice[i] == p[i] by {
        lemma_swap_source(i, width, p.len() as int);
        let j = i - i % width + (width - 1 - i % width);
        lemma_swap_source(j, width, p.len() as int);
    }
    assert(twice =~= p);
}

/// A byte-swap stage applied to what it passed gives back the payload it
/// was first given.
pub proof fn law_byte_swap_stage_is_an_involution(t: Transform, p: Seq<u8>)
    requires
        t is ByteSwap16 || t is ByteSwap32,
        stage_result(t, p) is Some,
    ensures
        stage_result(t, stage_result(t, p)->0) == Some(p),
{
    match t {
        Transform::ByteSwap16(_) => law_swap_words_twice_restores(p, 2),
        Transform::ByteSwap32(_) => law_swap_words_twice_restores(p, 4),
        _ => {},
    }
}

/// Running two pipelines one after the other is running their
/// concatenation: the second sees what the first passed, and nothing if the
/// first dropped.
pub proof fn law_pipeline_concatenation(a: Seq<Transform>, b: Seq<Transform>, p: Seq<u8>)
    ensures
        pipeline_result(a + b, p) == match pipeline_result(a, p) {
            Some(q) => pipeline_result(b, q),
            None => None,
        },
    decreases a.len(),
{
    if a.len() == 0 {
        assert(a + b =~= b);
    } else {
        assert((a + b).drop_first() =~= a.drop_first() + b);
        assert((a + b)[0] == a[0]);
        match stage_result(a[0], p) {
            Some(q) => law_pipeline_concatenation(a.drop_first(), b, q),
            None => {},
        }
    }
}

fn swap_bytes(payload: &Vec<u8>, width: usize) -> (r: Vec<u8>)
    requires
        width == 2 || width == 4,
        payload@.len() % (width as nat) == 0,
    ensures
        r@ == swap_words(payload@, width as int),
{
    let n = payload.len();
    let mut out: Vec<u8> = Vec::with_capacity(n);
    let mut i: usize = 0;
    while i < n
        invariant
            n == payload@.len(),
            width == 2 || width == 4,
            n % width == 0,
            i <= n,
            i % width == 0,
            out@.len() == i,
            forall|j: int| 0 <= j < i ==> #[trigger] out@[j] == swap_words(payload@, width as int)[j],
        decreases n - i,
    {
        let ghost before = out@;
        let mut k: usize = 0;
        while k < width
            invariant
                n == payload@.len(),
                width == 2 || width == 4,
                n % width == 0,
                i % width == 0,
                i < n,
                k <= width,
                out@.len() == i + k,
                forall|j: int| 0 <= j < i ==> #[trigger] out@[j] == before[j],
                forall|j: int| 0 <= j < i ==> #[trigger] before[j] == swap_words(payload@, width as int)[j],
                forall|j: int|
                    i <= j < i + k ==> #[trigger] out@[j] == payload@[i + (width - 1 - (j - i))],
            decreases width - k,
        {
            proof {
                assert(i + width <= n) by (nonlinear_arith)
                    requires
                        i % width == 0,
                        n % width == 0,
                        i < n,
                        width > 0,
                ;
            }
            out.push(payload[i + (width - 1 - k)]);
            k = k + 1;
        }
        proof {
            assert forall|j: int| 0 <= j < i + width implies #[trigger] out@[j] == swap_words(
                payload@,
                width as int,
            )[j] by {
                if j >= i {
                    assert(j % (width as int) == j - i) by (nonlinear_arith)
                        requires
                            i % width == 0,
                            i <= j < i + width,
                            width > 0,
                    ;
                }
            }
        }
        i = i + width;
    }
    assert(out@ =~= swap_words(payload@, width as int));
    out
}

impl DropSmallerThan {
    pub fn apply(&self, payload: Vec<u8>) -> (r: Decision)
        ensures
            decision_view(r) == stage_result(Transform::DropSmallerThan(*self), payload@),
    {
        if payload.len() < self.n_bytes {
            Decision::Drop
        } else {
            Decision::Pass(payload)
        }
    }
}

impl DropLargerThan {
    pub fn apply(&self, payload: Vec<u8>) -> (r: Decision)
        ensures
            decision_view(r) == stage_result(Transform::DropLargerThan(*self), payload@),
    {
        if payload.len() > self.n_bytes {
            Decision::Drop
        } else {
            Decision::Pass(payload)
        }
    }
}

impl ByteSwap16 {
    pub fn apply(&self, payload: Vec<u8>) -> (r: Decision)
        ensures
            decision_view(r) == stage_result(Transform::ByteSwap16(*self), payload@),
    {
        if payload.len() % 2 != 0 {
            return Decision::Drop;
        }
        Decision::Pass(swap_bytes(&payload, 2))
    }
}

impl ByteSwap32 {
    pub fn apply(&self, payload: Vec<u8>) -> (r: Decision)
        ensures
            decision_view(r) == stage_result(Transform::ByteSwap32(*self), payload@),
    {
        if payload.len() % 4 != 0 {
            return Decision::Drop;
        }
        Decision::Pass(swap_bytes(&payload, 4))
    }
}

impl Transform {
    pub fn apply(&self, payload: Vec<u8>) -> (r: Decision)
        ensures
            decision_view(r) == stage_result(*self, payload@),
    {
        match self {
            Transform::DropSmallerThan(t) => t.apply(payload),
            Transform::DropLargerThan(t) => t.apply(payload),
            Transform::ByteSwap16(t) => t.apply(payload),
            Transform::ByteSwap32(t) => t.apply(payload),
        }
    }
}

/// The stage a configuration entry describes.
pub open spec fn stage_of(c: TransformConfig) -> Transform {
    match c {
        TransformConfig::DropSmallerThan { n_bytes } => Transform::DropSmallerThan(
            DropSmallerThan { n_bytes },
        ),
        TransformConfig::DropLargerThan { n_bytes } => Transform::DropLargerThan(
            DropLargerThan { n_bytes },
        ),
        TransformConfig::ByteSwap16 => Transform::ByteSwap16(ByteSwap16),
        TransformConfig::ByteSwap32 => Transform::ByteSwap32(ByteSwap32),
    }
}

/// Builds a destination's pipeline from its configuration, one stage per
/// entry, in order.
pub fn build_pipeline(configs: &[TransformConfig]) -> (r: Vec<Transform>)
    ensures
        r@.len() == configs@.len(),
        forall|i: int| 0 <= i < configs@.len() ==> #[trigger] r@[i] == stage_of(configs@[i]),
{
    let mut out: Vec<Transform> = Vec::new();
    let mut i: usize = 0;
    while i < configs.len()
        invariant
            i <= configs@.len(),
            out@.len() == i,
            forall|j: int| 0 <= j < i ==> #[trigger] out@[j] == stage_of(configs@[j]),
        decreases configs@.len() - i,
    {
        let t = match configs[i] {
            TransformConfig::DropSmallerThan { n_bytes } => Transform::DropSmallerThan(
                DropSmallerThan { n_bytes },
            ),
            TransformConfig::DropLargerThan { n_bytes } => Transform::DropLargerThan(
                DropLargerThan { n_bytes },
            ),
            TransformConfig::ByteSwap16 => Transform::ByteSwap16(ByteSwap16),
            TransformConfig::ByteSwap32 => Transform::ByteSwap32(ByteSwap32),
        };
        out.push(t);
        i = i + 1;
    }
    out
}

/// Runs every stage in order. Returns the payload to forward, or `None` if
/// a stage dropped it; a drop counts once against `dropped_validation`.
pub fn apply_pipeline(pipeline: &[Transform], stats: &mut Stats, payload: Vec<u8>) -> (r: Option<
    Vec<u8>,
>)
    requires
        old(stats).wf(),
    ensures
        final(stats).wf(),
        match r {
            Some(v) => Some(v@),
            None => None,
        } == pipeline_result(pipeline@, payload@),
        r is Some ==> *final(stats) == *old(stats),
        r is None ==> *final(stats) == (Stats {
            dropped_validation: counter_add(old(stats).dropped_validation, 1),
            dropped_messages: counter_add(old(stats).dropped_messages, 1),
            ..*old(stats)
        }),
{
    let mut current = payload;
    let mut i: usize = 0;
    assert(pipeline@.skip(0) =~= pipeline@);
    while i < pipeline.len()
        invariant
            i <= pipeline@.len(),
            pipeline_result(pipeline@, payload@) == pipeline_result(
                pipeline@.skip(i as int),
                current@,
            ),
            stats.wf(),
            *stats == *old(stats),
        decreases pipeline@.len() - i,
    {
        proof {
            assert(pipeline@.skip(i as int).drop_first() =~= pipeline@.skip(i + 1));
            assert(pipeline@.skip(i as int)[0] == pipeline@[i as int]);
        }
        match pipeline[i].apply(current) {
            Decision::Pass(next) => {
                current = next;
            },
            Decision::Drop => {
                stats.add_dropped_validation(1);
                return None;
            },
        }
        i = i + 1;
    }
    assert(pipeline@.skip(pipeline@.len() as int) =~= Seq::<Transform>::empty());
    Some(current)
}

} // verus!
