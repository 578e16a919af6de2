//! The renderer's life cycle apart from frame timing: setting up the
//! swapchain from the configuration, numbering frames and rotating
//! swapchain images, rebuilding the swapchain and shutting down.
use vstd::prelude::*;
use crate::compositor::render::CompositorError;
use crate::compositor::config::{VulkanConfig, Swapchain, next_image};

verus! {

/// What a frame is handed: its number and the swapchain image it draws to.
#[derive(Debug, Clone, Copy, PartialEq, Eq, Structural)]
pub struct FrameSlot {
    pub frame_number: u64,
    pub swapchain_index: u32,
}

/// The renderer's state that holds no timing.
pub struct RendererCore {
    config: VulkanConfig,
    swapchain: Option<Swapchain>,
    frame_number: u64,
    is_initialized: bool,
}

/// A fresh swapchain for a surface of the given size: one image more than
/// the frames in flight, starting at image 0.
pub open spec fn fresh_swapchain(sc: Swapchain, c: VulkanConfig, width: u32, height: u32) -> bool {
    &&& sc.width == width
    &&& sc.height == height
    &&& sc.format == c.surface_format
    &&& sc.image_count == c.max_frames_in_flight + 1
    &&& sc.current_image_index == 0
    &&& !sc.is_suboptimal
}

impl RendererCore {
    pub closed spec fn spec_config(&self) -> VulkanConfig {
        self.config
    }

    pub closed spec fn spec_swapchain(&self) -> Option<Swapchain> {
        self.swapchain
    }

    pub closed spec fn spec_frame_number(&self) -> u64 {
        self.frame_number
    }

    pub closed spec fn spec_initialized(&self) -> bool {
        self.is_initialized
    }

    /// A swapchain, when there is one, has images and points at one of them.
    pub closed spec fn wf(&self) -> bool {
        match self.swapchain {
            Some(sc) => sc.image_count > 0 && sc.current_image_index < sc.image_count,
            None => true,
        }
    }

    /// Not yet set up: no swapchain, frame 0.
    pub fn new(config: VulkanConfig) -> (r: RendererCore)
        ensures
            r.wf(),
            r.spec_config() == config,
            r.spec_swapchain() is None,
            r.spec_frame_number() == 0,
            !r.spec_initialized(),
    {
        RendererCore { config, swapchain: None, frame_number: 0, is_initialized: false }
    }

    /// Checks the configuration and sets up the swapchain: the surface must
    /// have a size and at least one frame must be in flight.
    pub fn initialize(&mut self) -> (r: Result<(), CompositorError>)
        requires
            old(self).wf(),
            old(self).spec_config().max_frames_in_flight < u32::MAX,
        ensures
            final(self).wf(),
            final(self).spec_config() == old(self).spec_config(),
            final(self).spec_frame_number() == old(self).spec_frame_number(),
            ({
                let c = old(self).spec_config();
                if c.surface_size.0 == 0 || c.surface_size.1 == 0 {
                    &&& r is Err && r->Err_0 is InvalidConfig
                    &&& r->Err_0->InvalidConfig_0@ == "表面尺寸不能为零"@
                    &&& *final(self) == *old(self)
                } else if c.max_frames_in_flight == 0 {
                    &&& r is Err && r->Err_0 is InvalidConfig
                    &&& r->Err_0->InvalidConfig_0@ == "最大帧中飞行数必须大于零"@
                    &&& *final(self) == *old(self)
                } else {
                    &&& r is Ok
                    &&& final(self).spec_initialized()
                    &&& final(self).spec_swapchain() is Some
                    &&& fresh_swapchain(final(self).spec_swapchain()->Some_0, c, c.surface_size.0, c.surface_size.1)
                }
            }),
    {
        let (w, h) = self.config.surface_size;
        if w == 0 || h == 0 {
            return Err(CompositorError::InvalidConfig(String::from_str("表面尺寸不能为零")));
        }
        if self.config.max_frames_in_flight == 0 {
            return Err(CompositorError::InvalidConfig(String::from_str("最大帧中飞行数必须大于零")));
        }
        let image_count = self.config.max_frames_in_flight + 1;
        self.swapchain = Some(Swapchain::new(w, h, self.config.surface_format, image_count));
        self.is_initialized = true;
        Ok(())
    }

    /// Starts a frame: moves the swapchain to its next image and hands out
    /// the frame's number and that image, then counts the frame. Only an
    /// initialized renderer draws frames.
    pub fn begin_frame(&mut self) -> (r: Result<FrameSlot, CompositorError>)
        requires
            old(self).wf(),
            old(self).spec_initialized() ==> old(self).spec_frame_number() < u64::MAX,
        ensures
            final(self).wf(),
            final(self).spec_config() == old(self).spec_config(),
            final(self).spec_initialized() == old(self).spec_initialized(),
            !old(self).spec_initialized() ==> {
                &&& r is Err && r->Err_0 is InitializationFailed
                &&& r->Err_0->InitializationFailed_0@ == "渲染器未初始化"@
                &&& *final(self) == *old(self)
            },
            old(self).spec_initialized() ==> {
                &&& r is Ok
                &&& r->Ok_0.frame_number == old(self).spec_frame_number()
                &&& final(self).spec_frame_number() == old(self).spec_frame_number() + 1
                &&& match old(self).spec_swapchain() {
                    Some(sc) => {
                        let i = next_image(sc.current_image_index as int, sc.image_count as int);
                        &&& final(self).spec_swapchain() == Some(Swapchain { current_image_index: i as u32, ..sc })
                        &&& r->Ok_0.swapchain_index == i
                    },
                    None => final(self).spec_swapchain() is None && r->Ok_0.swapchain_index == 0,
                }
            },
    {
        if !self.is_initialized {
            return Err(CompositorError::InitializationFailed(String::from_str("渲染器未初始化")));
        }
        let index = match &mut self.swapchain {
            Some(sc) => {
                sc.advance();
                sc.current_image_index
            },
            None => 0,
        };
        let slot = FrameSlot { frame_number: self.frame_number, swapchain_index: index };
        self.frame_number = self.frame_number + 1;
        Ok(slot)
    }

    /// Replaces the swapchain with a fresh one of the given size.
    pub fn recreate_swapchain(&mut self, width: u32, height: u32) -> (r: Result<(), CompositorError>)
        requires
            old(self).wf(),
            old(self).spec_config().max_frames_in_flight < u32::MAX,
        ensures
            final(self).wf(),
            final(self).spec_config() == old(self).spec_config(),
            final(self).spec_frame_number() == old(self).spec_frame_number(),
            final(self).spec_initialized() == old(self).spec_initialized(),
            !old(self).spec_initialized() ==> {
                &&& r is Err && r->Err_0 is InitializationFailed
                &&& r->Err_0->InitializationFailed_0@ == "渲染器未初始化，无法重建交换链"@
                &&& *final(self) == *old(self)
            },
            old(self).spec_initialized() && (width == 0 || height == 0) ==> {
                &&& r is Err && r->Err_0 is InvalidConfig
                &&& r->Err_0->InvalidConfig_0@ == "交换链尺寸不能为零"@
                &&& *final(self) == *old(self)
            },
            old(self).spec_initialized() && width > 0 && height > 0 ==> {
                &&& r is Ok
                &&& final(self).spec_swapchain() is Some
                &&& fresh_swapchain(final(self).spec_swapchain()->Some_0, old(self).spec_config(), width, height)
            },
    {
        if !self.is_initialized {
            return Err(CompositorError::InitializationFailed(String::from_str("渲染器未初始化，无法重建交换链")));
        }
        if width == 0 || height == 0 {
            return Err(CompositorError::InvalidConfig(String::from_str("交换链尺寸不能为零")));
        }
        let image_count = self.config.max_frames_in_flight + 1;
        self.swapchain = Some(Swapchain::new(width, height, self.config.surface_format, image_count));
        Ok(())
    }

    pub fn config(&self) -> (r: &VulkanConfig)
        ensures
            *r == self.spec_config(),
    {
        &self.config
    }

    pub fn is_initialized(&self) -> (r: bool)
        ensures
            r == self.spec_initialized(),
    {
        self.is_initialized
    }

    pub fn frame_number(&self) -> (r: u64)
        ensures
            r == self.spec_frame_number(),
    {
        self.frame_number
    }

    /// The swapchain's current image, if there is a swapchain.
    pub fn swapchain_index(&self) -> (r: Option<u32>)
        ensures
            match self.spec_swapchain() {
                Some(sc) => r == Some(sc.current_image_index),
                None => r is None,
            },
    {
        match &self.swapchain {
            Some(sc) => Some(sc.current_image_index),
            None => None,
        }
    }

    /// Drops the swapchain; the renderer must be initialized again.
    pub fn shutdown(&mut self)
        ensures
            final(self).wf(),
            final(self).spec_swapchain() is None,
            !final(self).spec_initialized(),
            final(self).spec_config() == old(self).spec_config(),
            final(self).spec_frame_number() == old(self).spec_frame_number(),
    {
        self.swapchain = None;
        self.is_initialized = false;
    }
}

} // verus!
