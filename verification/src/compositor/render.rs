//! Compositor errors and the order in which layers are drawn.
use vstd::prelude::*;

verus! {

/// An error of the compositor.
#[derive(Debug, Clone, PartialEq, Eq)]
pub enum CompositorError {
    InitializationFailed(String),
    SwapchainCreationFailed(String),
    RenderFailed(String),
    SurfaceLost,
    DeviceLost,
    OutOfMemory,
    InvalidConfig(String),
    ShaderCompilationFailed(String),
    PipelineCreationFailed(String),
}

/// The human-readable text of a compositor error.
pub open spec fn compositor_error_text(e: CompositorError) -> Seq<char> {
    match e {
        CompositorError::InitializationFailed(m) => "初始化失败: "@ + m@,
        CompositorError::SwapchainCreationFailed(m) => "交换链创建失败: "@ + m@,
        CompositorError::RenderFailed(m) => "渲染失败: "@ + m@,
        CompositorError::SurfaceLost => "表面已丢失"@,
        CompositorError::DeviceLost => "设备已丢失"@,
        CompositorError::OutOfMemory => "GPU 内存不足"@,
        CompositorError::InvalidConfig(m) => "无效配置: "@ + m@,
        CompositorError::ShaderCompilationFailed(m) => "着色器编译失败: "@ + m@,
        CompositorError::PipelineCreationFailed(m) => "管线创建失败: "@ + m@,
    }
}

fn prefixed(prefix: &str, m: &String) -> (r: String)
    ensures
        r@ == prefix@ + m@,
{
    let mut s = String::from_str(prefix);
    s.append(m.as_str());
    s
}

impl CompositorError {
    /// The human-readable text of the error.
    pub fn message(&self) -> (r: String)
        ensures
            r@ == compositor_error_text(*self),
    {
        match self {
            CompositorError::InitializationFailed(m) => prefixed("初始化失败: ", m),
            CompositorError::SwapchainCreationFailed(m) => prefixed("交换链创建失败: ", m),
            CompositorError::RenderFailed(m) => prefixed("渲染失败: ", m),
            CompositorError::SurfaceLost => String::from_str("表面已丢失"),
            CompositorError::DeviceLost => String::from_str("设备已丢失"),
            CompositorError::OutOfMemory => String::from_str("GPU 内存不足"),
            CompositorError::InvalidConfig(m) => prefixed("无效配置: ", m),
            CompositorError::ShaderCompilationFailed(m) => prefixed("着色器编译失败: ", m),
            CompositorError::PipelineCreationFailed(m) => prefixed("管线创建失败: ", m),
        }
    }
}

/// A layer of the screen; lower layers are drawn first.
#[derive(Debug, Clone, Copy, PartialEq, Eq, Structural, PartialOrd, Ord)]
pub enum RenderLayer {
    Background,
    Windows,
    Overlays,
    Notifications,
    Cursor,
}

/// The drawing position of a layer.
pub open spec fn layer_rank(l: RenderLayer) -> u8 {
    match l {
        RenderLayer::Background => 0,
        RenderLayer::Windows => 1,
        RenderLayer::Overlays => 2,
        RenderLayer::Notifications => 3,
        RenderLayer::Cursor => 4,
    }
}

impl RenderLayer {
    /// The drawing position of the layer.
    pub fn as_u8(&self) -> (r: u8)
        ensures
            r == layer_rank(*self),
    {
        match self {
            RenderLayer::Background => 0,
            RenderLayer::Windows => 1,
            RenderLayer::Overlays => 2,
            RenderLayer::Notifications => 3,
            RenderLayer::Cursor => 4,
        }
    }

}

/// Layers are drawn bottom to top: background, windows, overlays,
/// notifications, and the cursor above everything.
pub proof fn law_layer_order()
    ensures
        layer_rank(RenderLayer::Background) < layer_rank(RenderLayer::Windows),
        layer_rank(RenderLayer::Windows) < layer_rank(RenderLayer::Overlays),
        layer_rank(RenderLayer::Overlays) < layer_rank(RenderLayer::Notifications),
        layer_rank(RenderLayer::Notifications) < layer_rank(RenderLayer::Cursor),
{
}

} // verus!
