//! Rendering settings and the swapchain's image rotation.
use vstd::prelude::*;

verus! {

/// The pixel layout of a surface.
#[derive(Debug, Clone, Copy, PartialEq, Eq, Structural)]
pub enum SurfaceFormat {
    BGRA8Unorm,
    RGBA8Unorm,
    BGR8Unorm,
    RGB8Unorm,
}

/// Samples per pixel.
#[derive(Debug, Clone, Copy, PartialEq, Eq, Structural)]
pub enum SampleCount {
    X1,
    X2,
    X4,
    X8,
}

/// Settings of the graphics back end.
#[derive(Debug)]
pub struct VulkanConfig {
    pub application_name: String,
    pub engine_name: String,
    pub version: (u32, u32, u32),
    pub preferred_gpu_index: Option<usize>,
    pub enable_validation: bool,
    pub enable_vsync: bool,
    pub surface_size: (u32, u32),
    pub surface_format: SurfaceFormat,
    pub sample_count: SampleCount,
    pub max_frames_in_flight: u32,
}

/// The settings used when none are given.
pub open spec fn is_default_config(c: VulkanConfig) -> bool {
    &&& c.application_name@ == "OmniAgent Compositor"@
    &&& c.engine_name@ == "OmniAgent"@
    &&& c.version == (0u32, 1u32, 0u32)
    &&& c.preferred_gpu_index is None
    &&& !c.enable_validation
    &&& c.enable_vsync
    &&& c.surface_size == (1920u32, 1080u32)
    &&& c.surface_format == SurfaceFormat::BGRA8Unorm
    &&& c.sample_count == SampleCount::X1
    &&& c.max_frames_in_flight == 2
}

impl VulkanConfig {
    /// A 1920x1080 BGRA surface with vsync, one sample, two frames in
    /// flight and no validation.
    pub fn default_config() -> (r: VulkanConfig)
        ensures
            is_default_config(r),
    {
        VulkanConfig {
            application_name: String::from_str("OmniAgent Compositor"),
            engine_name: String::from_str("OmniAgent"),
            version: (0, 1, 0),
            preferred_gpu_index: None,
            enable_validation: false,
            enable_vsync: true,
            surface_size: (1920, 1080),
            surface_format: SurfaceFormat::BGRA8Unorm,
            sample_count: SampleCount::X1,
            max_frames_in_flight: 2,
        }
    }
}

impl Clone for VulkanConfig {
    fn clone(&self) -> (r: VulkanConfig)
        ensures
            r == *self,
    {
        VulkanConfig {
            application_name: self.application_name.clone(),
            engine_name: self.engine_name.clone(),
            version: self.version,
            preferred_gpu_index: self.preferred_gpu_index,
            enable_validation: self.enable_validation,
            enable_vsync: self.enable_vsync,
            surface_size: self.surface_size,
            surface_format: self.surface_format,
            sample_count: self.sample_count,
            max_frames_in_flight: self.max_frames_in_flight,
        }
    }
}

impl Default for VulkanConfig {
    fn default() -> (r: VulkanConfig)
        ensures
            is_default_config(r),
    {
        VulkanConfig::default_config()
    }
}

/// The images a surface cycles through.
#[derive(Debug, Clone)]
pub struct Swapchain {
    pub width: u32,
    pub height: u32,
    pub format: SurfaceFormat,
    pub image_count: u32,
    pub current_image_index: u32,
    pub is_suboptimal: bool,
}

/// The image after `i` among `n`.
pub open spec fn next_image(i: int, n: int) -> int {
    (i + 1) % n
}

/// The image reached from `i` after `k` steps among `n`.
pub open spec fn image_after(i: int, n: int, k: nat) -> int
    decreases k,
{
    if k == 0 {
        i
    } else {
        next_image(image_after(i, n, (k - 1) as nat), n)
    }
}

impl Swapchain {
    /// Starts at image 0, not suboptimal.
    pub fn new(width: u32, height: u32, format: SurfaceFormat, image_count: u32) -> (r: Swapchain)
        ensures
            r.width == width,
            r.height == height,
            r.format == format,
            r.image_count == image_count,
            r.current_image_index == 0,
            !r.is_suboptimal,
    {
        Swapchain { width, height, format, image_count, current_image_index: 0, is_suboptimal: false }
    }

    /// Moves to the next image, wrapping to 0 after the last; the chain
    /// must have images.
    pub fn advance(&mut self)
        requires
            old(self).image_count > 0,
            old(self).current_image_index < u32::MAX,
        ensures
            final(self).current_image_index == next_image(
                old(self).current_image_index as int,
                old(self).image_count as int,
            ),
            *final(self) == (Swapchain { current_image_index: final(self).current_image_index, ..*old(self) }),
    {
        self.current_image_index = (self.current_image_index + 1) % self.image_count;
    }
}

/// Stepping `k` times from image `i` of `n` reaches image `(i + k) % n`, so
/// `n` steps come back to where they started.
pub proof fn law_advance_cycles(i: int, n: int, k: nat)
    requires
        n > 0,
        0 <= i < n,
    ensures
        image_after(i, n, k) == (i + k) % n,
        image_after(i, n, n as nat) == i,
{
    lemma_image_after_n(i, n, k);
    lemma_image_after_n(i, n, n as nat);
    vstd::arithmetic::div_mod::lemma_mod_add_multiples_vanish(i, n);
    vstd::arithmetic::div_mod::lemma_small_mod(i as nat, n as nat);
}

proof fn lemma_image_after_n(i: int, n: int, k: nat)
    requires
        n > 0,
        0 <= i < n,
    ensures
        image_after(i, n, k) == (i + k) % n,
    decreases k,
{
    if k > 0 {
        lemma_image_after_n(i, n, (k - 1) as nat);
        vstd::arithmetic::div_mod::lemma_add_mod_noop(i + k - 1, 1, n);
        if n > 1 {
            vstd::arithmetic::div_mod::lemma_small_mod(1, n as nat);
        }
    } else {
        vstd::arithmetic::div_mod::lemma_small_mod(i as nat, n as nat);
    }
}

} // verus!
