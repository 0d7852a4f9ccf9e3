use vstd::prelude::*;

use crate::geometry::{add3, sum_of, zero3, zero_vector};

verus! {

/// The running per-pixel radiance sums, row-major, with the number of
/// completed sampling passes and the number of passes wanted.
pub struct Accumulator {
    pub pixels: Vec<nalgebra_glm::Vec3>,
    pub samples: u32,
    pub max_samples: u32,
}

/// The sums after adding one estimate to each pixel.
pub open spec fn add_estimates(
    pixels: Seq<nalgebra_glm::Vec3>,
    estimates: Seq<nalgebra_glm::Vec3>,
) -> Seq<nalgebra_glm::Vec3> {
    Seq::new(pixels.len(), |i: int| sum_of(pixels[i], estimates[i]))
}

/// The sum of a pixel's estimates over a run of passes, added in order to
/// `start`.
pub open spec fn pixel_total(
    start: nalgebra_glm::Vec3,
    passes: Seq<Seq<nalgebra_glm::Vec3>>,
    i: int,
) -> nalgebra_glm::Vec3
    decreases passes.len(),
{
    if passes.len() == 0 {
        start
    } else {
        sum_of(pixel_total(start, passes.drop_last(), i), passes.last()[i])
    }
}

/// The sums after a run of passes, one estimate per pixel in each.
pub open spec fn after_passes(
    pixels: Seq<nalgebra_glm::Vec3>,
    passes: Seq<Seq<nalgebra_glm::Vec3>>,
) -> Seq<nalgebra_glm::Vec3>
    decreases passes.len(),
{
    if passes.len() == 0 {
        pixels
    } else {
        add_estimates(after_passes(pixels, passes.drop_last()), passes.last())
    }
}

/// Every pass in the run holds one estimate per pixel.
pub open spec fn passes_fit(passes: Seq<Seq<nalgebra_glm::Vec3>>, n: nat) -> bool {
    forall|k: int| 0 <= k < passes.len() ==> #[trigger] passes[k].len() == n
}

/// Every pixel sum is zero.
pub open spec fn all_zero(pixels: Seq<nalgebra_glm::Vec3>) -> bool {
    forall|i: int| 0 <= i < pixels.len() ==> #[trigger] pixels[i] == zero_vector(3)
}

impl Accumulator {
    /// The pixel sums and the number of completed passes.
    pub open spec fn view(&self) -> (Seq<nalgebra_glm::Vec3>, nat) {
        (self.pixels@, self.samples as nat)
    }

    /// Starts with the given sums, no completed pass, and `max_samples` passes
    /// wanted.
    pub fn new(surface: Vec<nalgebra_glm::Vec3>, max_samples: u32) -> (r: Accumulator)
        ensures
            r.pixels@ == surface@,
            r.samples == 0,
            r.max_samples == max_samples,
    {
        Accumulator { pixels: surface, samples: 0, max_samples }
    }

    /// Whether all wanted passes are done.
    pub fn is_done(&self) -> (r: bool)
        ensures
            r <==> self.samples >= self.max_samples,
    {
        self.samples >= self.max_samples
    }

    /// Whether the worker should run another pass.
    pub fn needs_pass(&self) -> (r: bool)
        ensures
            r <==> self.samples < self.max_samples,
    {
        self.samples < self.max_samples
    }

    /// Clears every pixel sum and the pass count.
    pub fn reset(&mut self)
        ensures
            final(self).pixels@.len() == old(self).pixels@.len(),
            all_zero(final(self).pixels@),
            final(self).samples == 0,
            final(self).max_samples == old(self).max_samples,
    {
        let mut i: usize = 0;
        while i < self.pixels.len()
            invariant
                i <= self.pixels@.len(),
                self.pixels@.len() == old(self).pixels@.len(),
                self.max_samples == old(self).max_samples,
                forall|j: int| 0 <= j < i ==> #[trigger] self.pixels@[j] == zero_vector(3),
            decreases self.pixels@.len() - i,
        {
            let z = zero3();
            self.pixels.set(i, z);
            i = i + 1;
        }
        self.samples = 0;
    }

    /// Applies a patch that may carry a new camera and a new scene: when it
    /// carries either, the accumulated image no longer matches the view, so
    /// every sum and the pass count are cleared; otherwise nothing changes.
    pub fn apply_env(&mut self, new_camera: bool, new_scene: bool)
        ensures
            final(self).pixels@.len() == old(self).pixels@.len(),
            final(self).max_samples == old(self).max_samples,
            new_camera || new_scene ==> final(self).samples == 0 && all_zero(
                final(self).pixels@,
            ),
            !new_camera && !new_scene ==> *final(self) == *old(self),
    {
        if new_camera || new_scene {
            self.reset();
        }
    }

    /// Adds one completed pass: one estimate to each pixel's sum, and one to
    /// the pass count.
    pub fn add_pass(&mut self, estimates: &Vec<nalgebra_glm::Vec3>)
        requires
            estimates@.len() == old(self).pixels@.len(),
            old(self).samples < old(self).max_samples,
        ensures
            final(self).view() == pass_step(old(self).view(), estimates@),
            final(self).max_samples == old(self).max_samples,
    {
        let mut i: usize = 0;
        while i < self.pixels.len()
            invariant
                i <= self.pixels@.len(),
                estimates@.len() == self.pixels@.len(),
                self.pixels@.len() == old(self).pixels@.len(),
                self.samples == old(self).samples,
                self.max_samples == old(self).max_samples,
                forall|j: int|
                    0 <= j < i ==> #[trigger] self.pixels@[j] == sum_of(
                        old(self).pixels@[j],
                        estimates@[j],
                    ),
                forall|j: int| i <= j < self.pixels@.len() ==> #[trigger] self.pixels@[j] == old(
                    self,
                ).pixels@[j],
            decreases self.pixels@.len() - i,
        {
            let s = add3(&self.pixels[i], &estimates[i]);
            self.pixels.set(i, s);
            i = i + 1;
        }
        assert(self.pixels@ =~= add_estimates(old(self).pixels@, estimates@));
        self.samples = self.samples + 1;
    }
}

/// The sums and pass count after one more pass.
pub open spec fn pass_step(
    v: (Seq<nalgebra_glm::Vec3>, nat),
    estimates: Seq<nalgebra_glm::Vec3>,
) -> (Seq<nalgebra_glm::Vec3>, nat) {
    (add_estimates(v.0, estimates), v.1 + 1)
}

/// The sums and pass count after a run of passes, one `add_pass` each.
pub open spec fn run_passes(
    v: (Seq<nalgebra_glm::Vec3>, nat),
    passes: Seq<Seq<nalgebra_glm::Vec3>>,
) -> (Seq<nalgebra_glm::Vec3>, nat)
    decreases passes.len(),
{
    if passes.len() == 0 {
        v
    } else {
        pass_step(run_passes(v, passes.drop_last()), passes.last())
    }
}

/// The column and row of the pixel at row-major index `i` in an image
/// `width` pixels wide.
pub fn get_index(i: usize, width: usize) -> (r: (usize, usize))
    requires
        width > 0,
    ensures
        r.0 == i % width,
        r.1 == i / width,
        r.1 * width + r.0 == i,
{
    let x = i % width;
    let y = i / width;
    assert(y * width + x == i) by (nonlinear_arith)
        requires
            x == i % width,
            y == i / width,
            width > 0,
    ;
    (x, y)
}

/// After `n` passes with no patch in between, the pass count has grown by
/// exactly `n`, and each pixel holds its starting sum plus its estimates from
/// every pass, added in order; from a cleared buffer, that is the sum of its
/// `n` estimates.
pub proof fn lemma_passes_accumulate(
    v: (Seq<nalgebra_glm::Vec3>, nat),
    passes: Seq<Seq<nalgebra_glm::Vec3>>,
)
    requires
        passes_fit(passes, v.0.len()),
    ensures
        run_passes(v, passes).1 == v.1 + passes.len(),
        run_passes(v, passes).0 == after_passes(v.0, passes),
        run_passes(v, passes).0.len() == v.0.len(),
        forall|i: int|
            0 <= i < v.0.len() ==> #[trigger] run_passes(v, passes).0[i] == pixel_total(
                v.0[i],
                passes,
                i,
            ),
    decreases passes.len(),
{
    lemma_after_passes(v.0, passes);
    if passes.len() > 0 {
        let rest = passes.drop_last();
        assert forall|k: int| 0 <= k < rest.len() implies #[trigger] rest[k].len()
            == v.0.len() by {
            assert(rest[k] == passes[k]);
        }
        lemma_passes_accumulate(v, rest);
    }
}

/// Each pixel's sum after a run of passes is its starting sum plus its
/// estimates from every pass, added in order.
pub proof fn lemma_after_passes(
    pixels: Seq<nalgebra_glm::Vec3>,
    passes: Seq<Seq<nalgebra_glm::Vec3>>,
)
    requires
        passes_fit(passes, pixels.len()),
    ensures
        after_passes(pixels, passes).len() == pixels.len(),
        forall|i: int|
            0 <= i < pixels.len() ==> #[trigger] after_passes(pixels, passes)[i] == pixel_total(
                pixels[i],
                passes,
                i,
            ),
    decreases passes.len(),
{
    if passes.len() > 0 {
        let rest = passes.drop_last();
        assert forall|k: int| 0 <= k < rest.len() implies #[trigger] rest[k].len()
            == pixels.len() by {
            assert(rest[k] == passes[k]);
        }
        lemma_after_passes(pixels, rest);
    }
}

} // verus!
