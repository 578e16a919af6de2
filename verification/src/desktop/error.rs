//! Errors of the desktop layer.
use vstd::prelude::*;
use crate::text::{decimal, push_decimal};

verus! {

/// An error of the desktop layer.
#[derive(Debug, Clone)]
pub enum DesktopError {
    WindowNotFound(u64),
    InvalidWindowId,
    RenderFailed { reason: &'static str },
    AnimationError { reason: &'static str },
    ThemeNotFound(String),
    InvalidSurface,
    BufferTooSmall,
}

/// The human-readable text of an error.
pub open spec fn desktop_error_text(e: DesktopError) -> Seq<char> {
    match e {
        DesktopError::WindowNotFound(id) => "窗口未找到: "@ + decimal(id as nat),
        DesktopError::InvalidWindowId => "无效的窗口 ID"@,
        DesktopError::RenderFailed { reason } => "渲染失败: "@ + reason@,
        DesktopError::AnimationError { reason } => "动画错误: "@ + reason@,
        DesktopError::ThemeNotFound(name) => "主题未找到: "@ + name@,
        DesktopError::InvalidSurface => "无效的渲染表面"@,
        DesktopError::BufferTooSmall => "缓冲区太小"@,
    }
}

impl DesktopError {
    /// The human-readable text of the error.
    pub fn message(&self) -> (r: String)
        ensures
            r@ == desktop_error_text(*self),
    {
        match self {
            DesktopError::WindowNotFound(id) => {
                let mut r = String::from_str("窗口未找到: ");
                push_decimal(&mut r, *id);
                r
            },
            DesktopError::InvalidWindowId => String::from_str("无效的窗口 ID"),
            DesktopError::RenderFailed { reason } => {
                let mut r = String::from_str("渲染失败: ");
                r.append(reason);
                r
            },
            DesktopError::AnimationError { reason } => {
                let mut r = String::from_str("动画错误: ");
                r.append(reason);
                r
            },
            DesktopError::ThemeNotFound(name) => {
                let mut r = String::from_str("主题未找到: ");
                r.append(name.as_str());
                r
            },
            DesktopError::InvalidSurface => String::from_str("无效的渲染表面"),
            DesktopError::BufferTooSmall => String::from_str("缓冲区太小"),
        }
    }
}

} // verus!
