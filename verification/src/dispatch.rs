//! The dispatcher side of the parallel renderer.
//!
//! One controller owns a pool of workers. A render starts by cutting the
//! pixel range of the image into consecutive batches; each batch goes to
//! exactly one worker, each worker answers with one colored entry per pixel
//! of the batch and finally with an end-of-stream acknowledgement. The
//! controller drains those answers into the frame buffer and reports the
//! render finished once every worker has acknowledged.
//!
//! Everything here is the decision logic alone: channels, threads and the
//! shading itself live with the host, which feeds worker answers back in
//! through [`RenderState::render_step`].

use vstd::prelude::*;

use crate::raster::ImageParams;

verus! {

/// Number of batches a pixel range of `count` pixels yields with batches of
/// `chunk` pixels: the last batch may be shorter.
pub open spec fn spec_num_batches(count: int, chunk: int) -> int {
    (count + chunk - 1) / chunk
}

/// Length of batch `j`: `chunk` for every batch but the last, which takes
/// the pixels that remain.
pub open spec fn spec_batch_len(count: int, chunk: int, j: int) -> int {
    if count - j * chunk < chunk {
        count - j * chunk
    } else {
        chunk
    }
}

/// Cut the flat pixel range `0 .. count` into consecutive batches of `chunk`
/// pixels. Batch `j` holds exactly the indices `j * chunk + k` for
/// `k < spec_batch_len(count, chunk, j)`; together the batches cover every
/// pixel index below `count` exactly once (see [`lemma_batch_of_pixel`]).
pub fn batch_plan(count: usize, chunk: usize) -> (batches: Vec<Vec<usize>>)
    requires
        0 < chunk,
    ensures
        batches@.len() == spec_num_batches(count as int, chunk as int),
        forall|j: int|
            0 <= j < batches@.len() ==> (#[trigger] batches@[j])@.len() == spec_batch_len(
                count as int,
                chunk as int,
                j,
            ),
        forall|j: int, k: int|
            0 <= j < batches@.len() && 0 <= k < batches@[j]@.len() ==> (#[trigger] batches@[j]@[k])
                == j * chunk + k,
{
    let mut batches: Vec<Vec<usize>> = Vec::new();
    let mut start: usize = 0;
    proof {
        assert(batches@.len() * chunk == 0) by (nonlinear_arith)
            requires
                batches@.len() == 0,
        ;
    }
    while start < count
        invariant
            0 < chunk,
            start <= count,
            start == batches@.len() * chunk || (start == count && batches@.len()
                == spec_num_batches(count as int, chunk as int)),
            forall|j: int|
                0 <= j < batches@.len() ==> (#[trigger] batches@[j])@.len() == spec_batch_len(
                    count as int,
                    chunk as int,
                    j,
                ),
            forall|j: int, k: int|
                0 <= j < batches@.len() && 0 <= k < batches@[j]@.len() ==> (
                #[trigger] batches@[j]@[k]) == j * chunk + k,
        decreases count - start,
    {
        let ghost j = batches@.len() as int;
        assert(start == j * chunk);
        let len_this = if count - start > chunk {
            chunk
        } else {
            count - start
        };
        assert(len_this == spec_batch_len(count as int, chunk as int, j));
        let mut batch: Vec<usize> = Vec::new();
        let mut k: usize = 0;
        while k < len_this
            invariant
                start + len_this <= count,
                k <= len_this,
                batch@.len() == k,
                forall|i: int| 0 <= i < k ==> #[trigger] batch@[i] == start + i,
            decreases len_this - k,
        {
            batch.push(start + k);
            k = k + 1;
        }
        batches.push(batch);
        start = start + len_this;
        proof {
            assert((j + 1) * chunk == j * chunk + chunk) by (nonlinear_arith);
            if start < count {
                assert(len_this == chunk);
                assert(start == (j + 1) * chunk);
            } else {
                assert(start == count);
                lemma_last_batch_count(count as int, chunk as int, j);
                assert(batches@.len() == spec_num_batches(count as int, chunk as int));
            }
        }
    }
    proof {
        if start == batches@.len() * chunk {
            lemma_exact_batch_count(count as int, chunk as int, batches@.len() as int);
        }
    }
    batches
}

/// When the pixels run out inside batch `j`, that batch is the last one the
/// plan produces.
proof fn lemma_last_batch_count(count: int, chunk: int, j: int)
    requires
        0 < chunk,
        0 <= j,
        j * chunk <= count,
        count <= j * chunk + chunk,
    ensures
        spec_num_batches(count, chunk) == j + 1 || (count == j * chunk && spec_num_batches(
            count,
            chunk,
        ) == j),
{
    assert((count + chunk - 1) / chunk == j + 1 || (count == j * chunk && (count + chunk - 1)
        / chunk == j)) by (nonlinear_arith)
        requires
            0 < chunk,
            0 <= j,
            j * chunk <= count <= j * chunk + chunk,
    ;
}

/// A pixel range that is a whole number of chunks yields exactly that many
/// batches.
proof fn lemma_exact_batch_count(count: int, chunk: int, n: int)
    requires
        0 < chunk,
        0 <= n,
        count == n * chunk,
    ensures
        spec_num_batches(count, chunk) == n,
{
    assert((n * chunk + chunk - 1) / chunk == n) by (nonlinear_arith)
        requires
            0 < chunk,
            0 <= n,
    ;
}

/// Every pixel of the image lands in exactly one slot of the batch plan:
/// pixel `p` sits in batch `p / chunk` at offset `p % chunk`, and no other
/// `(batch, offset)` pair addresses it.
pub proof fn lemma_batch_of_pixel(count: int, chunk: int, p: int)
    requires
        0 < chunk,
        0 <= p < count,
    ensures
        0 <= p / chunk < spec_num_batches(count, chunk),
        0 <= p % chunk < spec_batch_len(count, chunk, p / chunk),
        (p / chunk) * chunk + (p % chunk) == p,
{
    assert(0 <= p / chunk && 0 <= p % chunk < chunk && (p / chunk) * chunk + (p % chunk) == p)
        by (nonlinear_arith)
        requires
            0 < chunk,
            0 <= p,
    ;
    assert(p / chunk < spec_num_batches(count, chunk)) by (nonlinear_arith)
        requires
            0 < chunk,
            0 <= p < count,
    ;
    assert(p % chunk < spec_batch_len(count, chunk, p / chunk)) by (nonlinear_arith)
        requires
            0 < chunk,
            0 <= p < count,
    ;
}

/// Rejected render configurations: rendering must not start on them.
#[derive(Clone, Copy, Debug, PartialEq, Eq, Structural)]
pub enum ConfigError {
    /// The image has a zero width or a zero height.
    ZeroImageDimension,
    /// The recursion depth for the integrator is zero.
    ZeroDepth,
}

/// Batch size used for an image rendered by `workers` workers: an eighth of
/// a worker's share of the pixels, so every worker sees several batches per
/// frame, and never less than one pixel.
pub open spec fn spec_chunk_pixels(img: ImageParams, workers: int) -> int {
    let raw = ((img.width * img.height) as int / workers) / 8;
    if raw == 0 {
        1
    } else {
        raw
    }
}

/// One worker answer, drained from the output channel: a colored batch, or
/// `None` as the worker's end-of-stream acknowledgement.
pub type WorkerMessage<C> = Option<Vec<(usize, C)>>;

/// The frame buffer after writing every `(index, color)` entry of `batch`
/// into `buf`, in order.
pub open spec fn write_batch<C>(buf: Seq<C>, batch: Seq<(usize, C)>) -> Seq<C>
    decreases batch.len(),
{
    if batch.len() == 0 {
        buf
    } else {
        write_batch(buf, batch.drop_last()).update(batch.last().0 as int, batch.last().1)
    }
}

/// Number of end-of-stream acknowledgements among the drained messages.
pub open spec fn count_acks<C>(msgs: Seq<WorkerMessage<C>>) -> int
    decreases msgs.len(),
{
    if msgs.len() == 0 {
        0
    } else {
        (if msgs.first() is None {
            1int
        } else {
            0int
        }) + count_acks(msgs.drop_first())
    }
}

/// What one drain pass over the messages does: batches are written into the
/// buffer in arrival order, acknowledgements are counted, and the pass stops
/// as finished — discarding the rest — the moment the count reaches the
/// number of workers. Yields the buffer, the acknowledgement count, and
/// whether the render completed.
pub open spec fn spec_drain<C>(
    buf: Seq<C>,
    finished: int,
    msgs: Seq<WorkerMessage<C>>,
    workers: int,
) -> (Seq<C>, int, bool)
    decreases msgs.len(),
{
    if msgs.len() == 0 {
        (buf, finished, false)
    } else {
        match msgs.first() {
            Some(batch) => spec_drain(write_batch(buf, batch@), finished, msgs.drop_first(), workers),
            None => {
                if finished + 1 == workers {
                    (buf, finished + 1, true)
                } else {
                    spec_drain(buf, finished + 1, msgs.drop_first(), workers)
                }
            },
        }
    }
}

/// Controller state of the parallel renderer: how many workers serve it, the
/// integrator depth and per-pixel sample count of the current render,
/// whether a render is in flight, and how many workers have acknowledged the
/// end of the current batch stream.
pub struct RenderState {
    pub workers: u32,
    pub depth: u32,
    pub samples_number: u32,
    pub is_rendering: bool,
    pub num_finished: u32,
}

impl RenderState {
    pub open spec fn wf(self) -> bool {
        0 < self.workers
    }

    /// A fresh, idle controller for `workers` workers rendering to depth
    /// `depth`.
    pub fn new(workers: u32, depth: u32) -> (s: RenderState)
        requires
            0 < workers,
        ensures
            s.wf(),
            s.workers == workers,
            s.depth == depth,
            s.samples_number == 0,
            !s.is_rendering,
            s.num_finished == 0,
    {
        RenderState { workers, depth, samples_number: 0, is_rendering: false, num_finished: 0 }
    }

    /// Begin a render: reject a configuration the pipeline cannot serve,
    /// otherwise mark the render in flight and hand back the batch plan —
    /// the pixel indices each worker message must carry, batch by batch.
    /// The host sends each batch to the worker pool, follows with one
    /// end-of-stream marker per worker, and wakes the workers.
    pub fn start_rendering(&mut self, img: &ImageParams, samples_number: u32) -> (r: Result<
        Vec<Vec<usize>>,
        ConfigError,
    >)
        requires
            old(self).wf(),
            img.width * img.height <= u32::MAX,
            img.width * img.height <= usize::MAX,
        ensures
            final(self).wf(),
            final(self).workers == old(self).workers,
            final(self).depth == old(self).depth,
            r is Err ==> *final(self) == *old(self),
            r == Err::<Vec<Vec<usize>>, ConfigError>(ConfigError::ZeroImageDimension) <==> (
            img.width == 0 || img.height == 0),
            r == Err::<Vec<Vec<usize>>, ConfigError>(ConfigError::ZeroDepth) <==> (img.width > 0
                && img.height > 0 && old(self).depth == 0),
            r is Ok ==> {
                &&& final(self).is_rendering
                &&& final(self).num_finished == 0
                &&& final(self).samples_number == samples_number
                &&& {
                    let batches = r->Ok_0;
                    let count = (img.width * img.height) as int;
                    let chunk = spec_chunk_pixels(*img, old(self).workers as int);
                    &&& batches@.len() == spec_num_batches(count, chunk)
                    &&& forall|j: int|
                        0 <= j < batches@.len() ==> (#[trigger] batches@[j])@.len()
                            == spec_batch_len(count, chunk, j)
                    &&& forall|j: int, k: int|
                        0 <= j < batches@.len() && 0 <= k < batches@[j]@.len() ==> (
                        #[trigger] batches@[j]@[k]) == j * chunk + k
                }
            },
    {
        if img.width == 0 || img.height == 0 {
            return Err(ConfigError::ZeroImageDimension);
        }
        if self.depth == 0 {
            return Err(ConfigError::ZeroDepth);
        }
        let total: u32 = img.width * img.height;
        let raw: u32 = total / self.workers / 8;
        let chunk: usize = if raw == 0 {
            1
        } else {
            raw as usize
        };
        assert(chunk == spec_chunk_pixels(*img, self.workers as int));
        let count = img.pixel_count();
        let plan = batch_plan(count, chunk);
        self.is_rendering = true;
        self.num_finished = 0;
        self.samples_number = samples_number;
        Ok(plan)
    }

    /// Mark the renderer idle. Worker answers still in flight belong to no
    /// render any more; the next drain discards them.
    pub fn stop_rendering(&mut self)
        ensures
            *final(self) == (RenderState { is_rendering: false, ..*old(self) }),
    {
        self.is_rendering = false;
    }

    /// Drain one round of worker answers into the frame buffer. While idle,
    /// every answer is stale and is discarded. While rendering, each colored
    /// batch overwrites its pixels in arrival order and each acknowledgement
    /// is counted; the call reports `true` — this render is complete — as
    /// soon as every worker has acknowledged, discarding any later answers
    /// in the same round.
    pub fn render_step<C: Copy>(
        &mut self,
        buffer: &mut Vec<C>,
        messages: &Vec<WorkerMessage<C>>,
    ) -> (done: bool)
        requires
            old(self).num_finished + count_acks(messages@) <= u32::MAX,
            forall|m: int|
                0 <= m < messages@.len() && messages@[m] is Some ==> forall|k: int|
                    0 <= k < messages@[m]->Some_0@.len() ==> (
                    #[trigger] messages@[m]->Some_0@[k]).0 < old(buffer)@.len(),
        ensures
            final(self).workers == old(self).workers,
            final(self).depth == old(self).depth,
            final(self).samples_number == old(self).samples_number,
            final(self).is_rendering == old(self).is_rendering,
            final(buffer)@.len() == old(buffer)@.len(),
            !old(self).is_rendering ==> final(buffer)@ == old(buffer)@ && final(self).num_finished
                == old(self).num_finished && !done,
            old(self).is_rendering ==> {
                let r = spec_drain(
                    old(buffer)@,
                    old(self).num_finished as int,
                    messages@,
                    old(self).workers as int,
                );
                final(buffer)@ == r.0 && final(self).num_finished == r.1 && done == r.2
            },
    {
        if !self.is_rendering {
            return false;
        }
        let ghost target = spec_drain(
            buffer@,
            self.num_finished as int,
            messages@,
            self.workers as int,
        );
        let mut m: usize = 0;
        proof {
            assert(messages@.subrange(0, messages@.len() as int) =~= messages@);
        }
        while m < messages.len()
            invariant
                m <= messages@.len(),
                self.workers == old(self).workers,
                self.depth == old(self).depth,
                self.samples_number == old(self).samples_number,
                self.is_rendering,
                old(self).is_rendering,
                buffer@.len() == old(buffer)@.len(),
                self.num_finished + count_acks(messages@.subrange(m as int, messages@.len() as int))
                    <= u32::MAX,
                forall|i: int|
                    0 <= i < messages@.len() && messages@[i] is Some ==> forall|k: int|
                        0 <= k < messages@[i]->Some_0@.len() ==> (
                        #[trigger] messages@[i]->Some_0@[k]).0 < buffer@.len(),
                spec_drain(
                    buffer@,
                    self.num_finished as int,
                    messages@.subrange(m as int, messages@.len() as int),
                    self.workers as int,
                ) == target,
                target == spec_drain(
                    old(buffer)@,
                    old(self).num_finished as int,
                    messages@,
                    old(self).workers as int,
                ),
            decreases messages@.len() - m,
        {
            let ghost suffix = messages@.subrange(m as int, messages@.len() as int);
            proof {
                assert(suffix.drop_first() =~= messages@.subrange(
                    m + 1,
                    messages@.len() as int,
                ));
                lemma_count_acks_step(suffix);
            }
            match &messages[m] {
                Some(batch) => {
                    let ghost buf0 = buffer@;
                    let mut k: usize = 0;
                    while k < batch.len()
                        invariant
                            k <= batch@.len(),
                            buffer@.len() == buf0.len(),
                            forall|i: int|
                                0 <= i < batch@.len() ==> (#[trigger] batch@[i]).0 < buf0.len(),
                            buffer@ == write_batch(buf0, batch@.subrange(0, k as int)),
                        decreases batch@.len() - k,
                    {
                        let (i, c) = batch[k];
                        buffer.set(i, c);
                        proof {
                            let pre = batch@.subrange(0, k as int);
                            let post = batch@.subrange(0, k + 1);
                            assert(post.drop_last() =~= pre);
                            assert(post.last() == batch@[k as int]);
                        }
                        k = k + 1;
                    }
                    proof {
                        assert(batch@.subrange(0, batch@.len() as int) =~= batch@);
                        assert(suffix.first() == messages@[m as int]);
                    }
                },
                None => {
                    let ghost fin0 = self.num_finished as int;
                    proof {
                        assert(suffix.first() == messages@[m as int]);
                    }
                    self.num_finished = self.num_finished + 1;
                    if self.num_finished == self.workers {
                        proof {
                            assert(spec_drain(buffer@, fin0, suffix, self.workers as int)
                                == (buffer@, fin0 + 1, true));
                        }
                        return true;
                    }
                },
            }
            m = m + 1;
        }
        proof {
            assert(messages@.subrange(messages@.len() as int, messages@.len() as int)
                =~= Seq::<WorkerMessage<C>>::empty());
        }
        false
    }
}

/// Some entry of `batch` writes pixel `p`.
pub open spec fn batch_writes_pixel<C>(batch: Seq<(usize, C)>, p: int) -> bool {
    exists|k: int| 0 <= k < batch.len() && (#[trigger] batch[k]).0 == p
}

/// The color the last entry of `batch` addressed to pixel `p` carries.
pub open spec fn last_write<C>(batch: Seq<(usize, C)>, p: int) -> C
    recommends
        batch_writes_pixel(batch, p),
    decreases batch.len(),
{
    if batch.len() == 0 {
        arbitrary()
    } else if batch.last().0 == p {
        batch.last().1
    } else {
        last_write(batch.drop_last(), p)
    }
}

/// Writing a batch touches exactly the pixels the batch addresses: each of
/// them takes the batch's last write to it, every other pixel keeps its
/// color, and the buffer keeps its length.
pub proof fn lemma_write_batch_at<C>(buf: Seq<C>, batch: Seq<(usize, C)>, p: int)
    requires
        0 <= p < buf.len(),
        forall|k: int| 0 <= k < batch.len() ==> (#[trigger] batch[k]).0 < buf.len(),
    ensures
        write_batch(buf, batch).len() == buf.len(),
        batch_writes_pixel(batch, p) ==> write_batch(buf, batch)[p] == last_write(batch, p),
        !batch_writes_pixel(batch, p) ==> write_batch(buf, batch)[p] == buf[p],
    decreases batch.len(),
{
    if batch.len() > 0 {
        lemma_write_batch_at(buf, batch.drop_last(), p);
        if batch.last().0 == p {
            assert(batch_writes_pixel(batch, p));
        } else {
            if batch_writes_pixel(batch, p) {
                let k = choose|k: int| 0 <= k < batch.len() && (#[trigger] batch[k]).0 == p;
                assert(batch.drop_last()[k] == batch[k]);
                assert(batch_writes_pixel(batch.drop_last(), p));
            }
            if batch_writes_pixel(batch.drop_last(), p) {
                let k = choose|k: int|
                    0 <= k < batch.drop_last().len() && (#[trigger] batch.drop_last()[k]).0 == p;
                assert(batch[k] == batch.drop_last()[k]);
                assert(batch_writes_pixel(batch, p));
            }
        }
    }
}

/// When exactly one entry of `batch` addresses pixel `p`, the batch's last
/// write to `p` is that entry's color.
pub proof fn lemma_last_write_unique<C>(batch: Seq<(usize, C)>, p: int, k: int)
    requires
        0 <= k < batch.len(),
        batch[k].0 == p,
        forall|i: int| 0 <= i < batch.len() && i != k ==> (#[trigger] batch[i]).0 != p,
    ensures
        batch_writes_pixel(batch, p),
        last_write(batch, p) == batch[k].1,
    decreases batch.len(),
{
    assert(batch_writes_pixel(batch, p));
    if k == batch.len() - 1 {
    } else {
        assert(batch.drop_last()[k] == batch[k]);
        lemma_last_write_unique(batch.drop_last(), p, k);
    }
}

/// Draining nothing but the missing acknowledgements finishes the render
/// and leaves the buffer alone.
proof fn lemma_drain_acks<C>(buf: Seq<C>, msgs: Seq<WorkerMessage<C>>, fin: int, workers: int)
    requires
        0 <= fin < workers,
        msgs.len() == workers - fin,
        forall|j: int| 0 <= j < msgs.len() ==> msgs[j] is None,
    ensures
        spec_drain(buf, fin, msgs, workers) == (buf, workers, true),
    decreases msgs.len(),
{
    if fin + 1 == workers {
        assert(msgs.len() == 1);
    } else {
        lemma_drain_acks(buf, msgs.drop_first(), fin + 1, workers);
    }
}

/// The number of planned batches covers the whole pixel range.
proof fn lemma_batches_cover(count: int, chunk: int)
    requires
        0 < chunk,
        0 <= count,
    ensures
        count <= spec_num_batches(count, chunk) * chunk,
{
    assert(count <= ((count + chunk - 1) / chunk) * chunk) by (nonlinear_arith)
        requires
            0 < chunk,
            0 <= count,
    ;
}

/// Pixels below `j * chunk` are never addressed by batches `j` and later.
proof fn lemma_drain_plan_suffix<C>(
    buf: Seq<C>,
    msgs: Seq<WorkerMessage<C>>,
    count: int,
    chunk: int,
    j0: int,
    workers: int,
)
    requires
        0 < chunk,
        0 < workers,
        0 <= j0 <= spec_num_batches(count, chunk),
        0 <= count,
        buf.len() == count,
        msgs.len() == (spec_num_batches(count, chunk) - j0) + workers,
        forall|j: int|
            0 <= j < spec_num_batches(count, chunk) - j0 ==> (#[trigger] msgs[j]) is Some,
        forall|j: int|
            0 <= j < spec_num_batches(count, chunk) - j0 ==> (#[trigger] msgs[j])->Some_0@.len()
                == spec_batch_len(count, chunk, j0 + j),
        forall|j: int, k: int|
            0 <= j < spec_num_batches(count, chunk) - j0 && 0 <= k < msgs[j]->Some_0@.len() ==> (
            #[trigger] msgs[j]->Some_0@[k]).0 == (j0 + j) * chunk + k,
        forall|j: int|
            spec_num_batches(count, chunk) - j0 <= j < msgs.len() ==> (#[trigger] msgs[j]) is None,
    ensures
        ({
            let r = spec_drain(buf, 0, msgs, workers);
            &&& r.1 == workers
            &&& r.2 == true
            &&& r.0.len() == count
            &&& forall|p: int|
                j0 * chunk <= p < count ==> #[trigger] r.0[p] == msgs[p / chunk - j0]->Some_0@[p
                    % chunk].1
            &&& forall|p: int| 0 <= p < j0 * chunk && p < count ==> #[trigger] r.0[p] == buf[p]
        }),
    decreases msgs.len(),
{
    let num = spec_num_batches(count, chunk);
    if j0 == num {
        lemma_drain_acks(buf, msgs, 0, workers);
        lemma_batches_cover(count, chunk);
    } else {
        let batch = msgs.first()->Some_0@;
        let blen = spec_batch_len(count, chunk, j0);
        let buf1 = write_batch(buf, batch);
        assert forall|k: int| 0 <= k < batch.len() implies (#[trigger] batch[k]).0
            < buf.len() by {
            assert(msgs[0]->Some_0@[k].0 == (j0 + 0) * chunk + k);
            assert(j0 * chunk + k < count) by (nonlinear_arith)
                requires
                    0 < chunk,
                    0 <= k < spec_batch_len(count, chunk, j0),
                    0 <= j0,
            ;
        }
        assert(count > 0) by (nonlinear_arith)
            requires
                0 < chunk,
                0 <= count,
                (count + chunk - 1) / chunk > j0 >= 0,
        ;
        lemma_write_batch_at(buf, batch, 0);
        assert(buf1.len() == buf.len());
        assert forall|p: int| 0 <= p < buf.len() implies (batch_writes_pixel(batch, p) ==> buf1[p]
            == last_write(batch, p)) && (!batch_writes_pixel(batch, p) ==> buf1[p] == buf[p]) by {
            lemma_write_batch_at(buf, batch, p);
        }
        let rest = msgs.drop_first();
        assert forall|j: int, k: int|
            0 <= j < num - (j0 + 1) && 0 <= k < rest[j]->Some_0@.len() implies (
        #[trigger] rest[j]->Some_0@[k]).0 == (j0 + 1 + j) * chunk + k by {
            assert(rest[j] == msgs[j + 1]);
            assert(msgs[j + 1]->Some_0@[k].0 == (j0 + (j + 1)) * chunk + k);
        }
        assert forall|j: int| 0 <= j < num - (j0 + 1) implies (#[trigger] rest[j]) is Some && rest[j]->Some_0@.len()
            == spec_batch_len(count, chunk, j0 + 1 + j) by {
            assert(rest[j] == msgs[j + 1]);
        }
        assert forall|j: int| num - (j0 + 1) <= j < rest.len() implies (#[trigger] rest[j]) is None by {
            assert(rest[j] == msgs[j + 1]);
        }
        lemma_drain_plan_suffix(buf1, rest, count, chunk, j0 + 1, workers);
        let r = spec_drain(buf, 0, msgs, workers);
        assert(r == spec_drain(buf1, 0, rest, workers));
        assert forall|p: int| j0 * chunk <= p < count implies #[trigger] r.0[p] == msgs[p / chunk
            - j0]->Some_0@[p % chunk].1 by {
            if p < (j0 + 1) * chunk {
                assert(p / chunk == j0 && p % chunk == p - j0 * chunk) by (nonlinear_arith)
                    requires
                        0 < chunk,
                        j0 * chunk <= p < (j0 + 1) * chunk,
                        0 <= j0,
                ;
                let k = p - j0 * chunk;
                assert(k < blen) by (nonlinear_arith)
                    requires
                        0 < chunk,
                        k == p - j0 * chunk,
                        j0 * chunk <= p < count,
                        p < (j0 + 1) * chunk,
                        blen == spec_batch_len(count, chunk, j0),
                ;
                assert(batch[k].0 == (j0 + 0) * chunk + k == p);
                assert forall|i: int| 0 <= i < batch.len() && i != k implies (
                #[trigger] batch[i]).0 != p by {
                    assert(batch[i].0 == (j0 + 0) * chunk + i);
                }
                lemma_last_write_unique(batch, p, k);
                assert(r.0[p] == buf1[p]);
            } else {
                let q = p / chunk;
                assert(j0 + 1 <= q) by (nonlinear_arith)
                    requires
                        0 < chunk,
                        (j0 + 1) * chunk <= p,
                        0 <= j0,
                        q == p / chunk,
                ;
                lemma_batches_cover(count, chunk);
                assert(q < num) by (nonlinear_arith)
                    requires
                        0 < chunk,
                        0 <= p,
                        p < num * chunk,
                        q == p / chunk,
                ;
                assert(r.0[p] == rest[q - (j0 + 1)]->Some_0@[p % chunk].1);
                assert(rest[q - (j0 + 1)] == msgs[q - j0]);
            }
        }
        assert forall|p: int| 0 <= p < j0 * chunk && p < count implies #[trigger] r.0[p]
            == buf[p] by {
            assert(p < (j0 + 1) * chunk) by (nonlinear_arith)
                requires
                    0 < chunk,
                    p < j0 * chunk,
                    0 <= j0,
            ;
            assert(r.0[p] == buf1[p]);
            if batch_writes_pixel(batch, p) {
                let k = choose|k: int| 0 <= k < batch.len() && (#[trigger] batch[k]).0 == p;
                assert(batch[k].0 == (j0 + 0) * chunk + k);
                assert(false) by (nonlinear_arith)
                    requires
                        0 < chunk,
                        0 <= k,
                        p == j0 * chunk + k,
                        p < j0 * chunk,
                ;
            }
        }
    }
}

/// Dispatcher completeness: when the drained messages are exactly one
/// colored entry for every planned pixel — batch by batch, in plan order —
/// followed by one acknowledgement per worker, the drain reports the render
/// complete and every pixel of the buffer holds precisely the color its one
/// entry carried.
pub proof fn lemma_dispatcher_completeness<C>(
    buf: Seq<C>,
    msgs: Seq<WorkerMessage<C>>,
    count: int,
    chunk: int,
    workers: int,
)
    requires
        0 < chunk,
        0 < workers,
        0 <= count,
        buf.len() == count,
        msgs.len() == spec_num_batches(count, chunk) + workers,
        forall|j: int|
            0 <= j < spec_num_batches(count, chunk) ==> (#[trigger] msgs[j]) is Some,
        forall|j: int|
            0 <= j < spec_num_batches(count, chunk) ==> (#[trigger] msgs[j])->Some_0@.len()
                == spec_batch_len(count, chunk, j),
        forall|j: int, k: int|
            0 <= j < spec_num_batches(count, chunk) && 0 <= k < msgs[j]->Some_0@.len() ==> (
            #[trigger] msgs[j]->Some_0@[k]).0 == j * chunk + k,
        forall|j: int|
            spec_num_batches(count, chunk) <= j < msgs.len() ==> (#[trigger] msgs[j]) is None,
    ensures
        ({
            let r = spec_drain(buf, 0, msgs, workers);
            &&& r.1 == workers
            &&& r.2 == true
            &&& r.0.len() == count
            &&& forall|p: int|
                0 <= p < count ==> #[trigger] r.0[p] == msgs[p / chunk]->Some_0@[p % chunk].1
        }),
{
    assert forall|j: int, k: int|
        0 <= j < spec_num_batches(count, chunk) - 0 && 0 <= k < msgs[j]->Some_0@.len() implies (
    #[trigger] msgs[j]->Some_0@[k]).0 == (0 + j) * chunk + k by {
        assert(msgs[j]->Some_0@[k].0 == j * chunk + k);
    }
    lemma_drain_plan_suffix(buf, msgs, count, chunk, 0, workers);
    let r = spec_drain(buf, 0, msgs, workers);
    assert forall|p: int| 0 <= p < count implies #[trigger] r.0[p] == msgs[p / chunk]->Some_0@[p
        % chunk].1 by {
        assert(0 * chunk <= p);
        assert(r.0[p] == msgs[p / chunk - 0]->Some_0@[p % chunk].1);
    }
}

/// Dispatcher completeness for a whole render: when the messages drained
/// over a render of `img` are one answer per batch of the plan that
/// [`RenderState::start_rendering`] handed out — echoing exactly the
/// planned pixel indices, batch by batch and in order — followed by one
/// acknowledgement per worker, then the drain reports the render complete
/// and every pixel of the frame buffer has been written exactly once, with
/// the color its one answer entry carried.
pub proof fn lemma_render_completes<C>(
    img: ImageParams,
    workers: int,
    buf: Seq<C>,
    msgs: Seq<WorkerMessage<C>>,
)
    requires
        img.wf(),
        0 < workers,
        buf.len() == img.width * img.height,
        ({
            let count = (img.width * img.height) as int;
            let chunk = spec_chunk_pixels(img, workers);
            &&& msgs.len() == spec_num_batches(count, chunk) + workers
            &&& forall|j: int| 0 <= j < spec_num_batches(count, chunk) ==> (#[trigger] msgs[j]) is Some
            &&& forall|j: int|
                0 <= j < spec_num_batches(count, chunk) ==> (#[trigger] msgs[j])->Some_0@.len()
                    == spec_batch_len(count, chunk, j)
            &&& forall|j: int, k: int|
                0 <= j < spec_num_batches(count, chunk) && 0 <= k < msgs[j]->Some_0@.len() ==> (
                #[trigger] msgs[j]->Some_0@[k]).0 == j * chunk + k
            &&& forall|j: int|
                spec_num_batches(count, chunk) <= j < msgs.len() ==> (#[trigger] msgs[j]) is None
        }),
    ensures
        ({
            let chunk = spec_chunk_pixels(img, workers);
            let r = spec_drain(buf, 0, msgs, workers);
            &&& r.1 == workers
            &&& r.2 == true
            &&& r.0.len() == img.width * img.height
            &&& forall|p: int|
                0 <= p < img.width * img.height ==> #[trigger] r.0[p] == msgs[p / chunk]->Some_0@[p
                    % chunk].1
        }),
{
    let count = (img.width * img.height) as int;
    let chunk = spec_chunk_pixels(img, workers);
    assert(0 < count) by (nonlinear_arith)
        requires
            0 < img.width,
            0 < img.height,
            count == (img.width * img.height) as int,
    ;
    assert(0 < chunk);
    lemma_dispatcher_completeness(buf, msgs, count, chunk, workers);
}

/// Unfolding `count_acks` one message at a time.
proof fn lemma_count_acks_step<C>(msgs: Seq<WorkerMessage<C>>)
    requires
        msgs.len() > 0,
    ensures
        count_acks(msgs) == (if msgs.first() is None {
            1int
        } else {
            0int
        }) + count_acks(msgs.drop_first()),
        count_acks(msgs.drop_first()) >= 0,
        count_acks(msgs) >= 0,
{
    lemma_count_acks_nonneg(msgs.drop_first());
    lemma_count_acks_nonneg(msgs);
}

/// The acknowledgement count is never negative.
proof fn lemma_count_acks_nonneg<C>(msgs: Seq<WorkerMessage<C>>)
    ensures
        count_acks(msgs) >= 0,
    decreases msgs.len(),
{
    if msgs.len() > 0 {
        lemma_count_acks_nonneg(msgs.drop_first());
    }
}

/// A batch slot addresses only the pixel its own arithmetic names: slot
/// `(j, k)` holds pixel `j * chunk + k`, and `(j, k)` can be recovered from
/// that pixel index, so no two slots share a pixel.
pub proof fn lemma_batch_slot_unique(chunk: int, j: int, k: int)
    requires
        0 < chunk,
        0 <= j,
        0 <= k < chunk,
    ensures
        (j * chunk + k) / chunk == j,
        (j * chunk + k) % chunk == k,
{
    assert((j * chunk + k) / chunk == j && (j * chunk + k) % chunk == k) by (nonlinear_arith)
        requires
            0 < chunk,
            0 <= j,
            0 <= k < chunk,
    ;
}

} // verus!
