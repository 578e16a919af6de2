use lib::compositor::resource::{TextureFormat, TextureUsage, TextureDescriptor, BufferType, GpuResourceManager};
use lib::compositor::render::{CompositorError, RenderLayer};
use lib::compositor::config::{VulkanConfig, SurfaceFormat, SampleCount, Swapchain};
use lib::compositor::animation::{AnimationDirection, elapsed_since};

#[test]
fn test_compositor_error_display() {
    let err = CompositorError::SurfaceLost;
    assert_eq!(err.message(), "表面已丢失");

    let err = CompositorError::DeviceLost;
    assert_eq!(err.message(), "设备已丢失");

    let err = CompositorError::OutOfMemory;
    assert_eq!(err.message(), "GPU 内存不足");

    let err = CompositorError::InitializationFailed("测试错误".to_string());
    assert_eq!(err.message(), "初始化失败: 测试错误");
}

#[test]
fn test_render_layer_ordering() {
    assert!(RenderLayer::Background < RenderLayer::Windows);
    assert!(RenderLayer::Windows < RenderLayer::Overlays);
    assert!(RenderLayer::Overlays < RenderLayer::Notifications);
    assert!(RenderLayer::Notifications < RenderLayer::Cursor);
}


// ---- TextureFormat 测试 ----

#[test]
fn test_texture_format_bytes_per_pixel() {
    assert_eq!(TextureFormat::RGBA8.bytes_per_pixel(), 4);
    assert_eq!(TextureFormat::BGRA8.bytes_per_pixel(), 4);
    assert_eq!(TextureFormat::RGB8.bytes_per_pixel(), 3);
    assert_eq!(TextureFormat::R8.bytes_per_pixel(), 1);
    assert_eq!(TextureFormat::RG8.bytes_per_pixel(), 2);
    assert_eq!(TextureFormat::D16Unorm.bytes_per_pixel(), 2);
    assert_eq!(TextureFormat::D32Float.bytes_per_pixel(), 4);
}

// ---- TextureUsage 测试 ----

#[test]
fn test_texture_usage_contains() {
    let usage = TextureUsage::SAMPLED().union(TextureUsage::RENDER_TARGET());
    assert!(usage.contains(TextureUsage::SAMPLED()));
    assert!(usage.contains(TextureUsage::RENDER_TARGET()));
    assert!(!usage.contains(TextureUsage::TRANSFER_SRC()));
    assert!(!usage.contains(TextureUsage::TRANSFER_DST()));
}

#[test]
fn test_texture_usage_union() {
    let usage = TextureUsage::SAMPLED().union(TextureUsage::TRANSFER_SRC());
    assert!(usage.contains(TextureUsage::SAMPLED()));
    assert!(usage.contains(TextureUsage::TRANSFER_SRC()));
    assert_eq!(usage.bits(), 1 | 4);
}

#[test]
fn test_texture_usage_union_multiple() {
    let usage = TextureUsage::SAMPLED()
        .union(TextureUsage::RENDER_TARGET())
        .union(TextureUsage::TRANSFER_SRC())
        .union(TextureUsage::TRANSFER_DST());
    assert!(usage.contains(TextureUsage::SAMPLED()));
    assert!(usage.contains(TextureUsage::RENDER_TARGET()));
    assert!(usage.contains(TextureUsage::TRANSFER_SRC()));
    assert!(usage.contains(TextureUsage::TRANSFER_DST()));
    assert_eq!(usage.bits(), 0b1111);
}

#[test]
fn test_texture_usage_empty() {
    let usage = TextureUsage(0);
    assert!(usage.is_empty());
    assert!(!usage.contains(TextureUsage::SAMPLED()));
}

#[test]
fn test_texture_usage_bits() {
    assert_eq!(TextureUsage::SAMPLED().bits(), 1);
    assert_eq!(TextureUsage::RENDER_TARGET().bits(), 2);
    assert_eq!(TextureUsage::TRANSFER_SRC().bits(), 4);
    assert_eq!(TextureUsage::TRANSFER_DST().bits(), 8);
}

// ---- TextureDescriptor 测试 ----

#[test]
fn test_texture_descriptor_memory_size() {
    let desc = TextureDescriptor {
        width: 256,
        height: 256,
        format: TextureFormat::RGBA8,
        usage: TextureUsage::SAMPLED(),
        mip_levels: 1,
    };
    // 256 * 256 * 4 = 262144
    assert_eq!(desc.memory_size(), 262144);
}

#[test]
fn test_texture_descriptor_memory_size_mips() {
    let desc = TextureDescriptor {
        width: 256,
        height: 256,
        format: TextureFormat::RGBA8,
        usage: TextureUsage::SAMPLED(),
        mip_levels: 3,
    };
    // MIP 0: 256*256*4 = 262144
    // MIP 1: 128*128*4 = 65536
    // MIP 2: 64*64*4 = 16384
    // 总计: 344064
    assert_eq!(desc.memory_size(), 262144 + 65536 + 16384);
}

// ---- GpuResourceManager 测试 ----

#[test]
fn test_gpu_resource_manager_new() {
    let mgr = GpuResourceManager::new(1024 * 1024);
    assert_eq!(mgr.texture_count(), 0);
    assert_eq!(mgr.buffer_count(), 0);
    assert_eq!(mgr.memory_usage(), 0);
}

#[test]
fn test_create_texture() {
    let mut mgr = GpuResourceManager::new(1024 * 1024);
    let desc = TextureDescriptor {
        width: 64,
        height: 64,
        format: TextureFormat::RGBA8,
        usage: TextureUsage::SAMPLED(),
        mip_levels: 1,
    };
    let id = mgr.create_texture(desc).unwrap();
    assert_eq!(id, 1);
    assert_eq!(mgr.texture_count(), 1);
    assert_eq!(mgr.memory_usage(), 64 * 64 * 4);
}

#[test]
fn test_create_multiple_textures() {
    let mut mgr = GpuResourceManager::new(1024 * 1024);
    let desc = TextureDescriptor {
        width: 32,
        height: 32,
        format: TextureFormat::RGBA8,
        usage: TextureUsage::SAMPLED(),
        mip_levels: 1,
    };

    let id1 = mgr.create_texture(desc.clone()).unwrap();
    let id2 = mgr.create_texture(desc.clone()).unwrap();
    let id3 = mgr.create_texture(desc).unwrap();

    assert_eq!(id1, 1);
    assert_eq!(id2, 2);
    assert_eq!(id3, 3);
    assert_eq!(mgr.texture_count(), 3);
}

#[test]
fn test_destroy_texture() {
    let mut mgr = GpuResourceManager::new(1024 * 1024);
    let desc = TextureDescriptor {
        width: 64,
        height: 64,
        format: TextureFormat::RGBA8,
        usage: TextureUsage::SAMPLED(),
        mip_levels: 1,
    };
    let id = mgr.create_texture(desc).unwrap();
    assert_eq!(mgr.texture_count(), 1);

    mgr.destroy_texture(id).unwrap();
    assert_eq!(mgr.texture_count(), 0);
    assert_eq!(mgr.memory_usage(), 0);
}

#[test]
fn test_destroy_nonexistent_texture() {
    let mut mgr = GpuResourceManager::new(1024 * 1024);
    let result = mgr.destroy_texture(999);
    assert!(result.is_err());
}

#[test]
fn test_get_texture() {
    let mut mgr = GpuResourceManager::new(1024 * 1024);
    let desc = TextureDescriptor {
        width: 128,
        height: 128,
        format: TextureFormat::BGRA8,
        usage: TextureUsage::RENDER_TARGET(),
        mip_levels: 1,
    };
    let id = mgr.create_texture(desc).unwrap();

    let texture = mgr.get_texture(id).unwrap();
    assert_eq!(texture.id, id);
    assert_eq!(texture.descriptor.width, 128);
    assert_eq!(texture.descriptor.format, TextureFormat::BGRA8);
    assert!(texture.is_allocated);
}

#[test]
fn test_get_nonexistent_texture() {
    let mgr = GpuResourceManager::new(1024 * 1024);
    assert!(mgr.get_texture(999).is_none());
}

#[test]
fn test_create_buffer() {
    let mut mgr = GpuResourceManager::new(1024 * 1024);
    let id = mgr.create_buffer(1024, BufferType::Vertex).unwrap();
    assert_eq!(id, 1);
    assert_eq!(mgr.buffer_count(), 1);
    assert_eq!(mgr.memory_usage(), 1024);
}

#[test]
fn test_create_multiple_buffers() {
    let mut mgr = GpuResourceManager::new(1024 * 1024);
    let id1 = mgr.create_buffer(256, BufferType::Vertex).unwrap();
    let id2 = mgr.create_buffer(512, BufferType::Index).unwrap();
    let id3 = mgr.create_buffer(128, BufferType::Uniform).unwrap();

    assert_eq!(id1, 1);
    assert_eq!(id2, 2);
    assert_eq!(id3, 3);
    assert_eq!(mgr.buffer_count(), 3);
    assert_eq!(mgr.memory_usage(), 256 + 512 + 128);
}

#[test]
fn test_destroy_buffer() {
    let mut mgr = GpuResourceManager::new(1024 * 1024);
    let id = mgr.create_buffer(2048, BufferType::Storage).unwrap();
    assert_eq!(mgr.buffer_count(), 1);

    mgr.destroy_buffer(id).unwrap();
    assert_eq!(mgr.buffer_count(), 0);
    assert_eq!(mgr.memory_usage(), 0);
}

#[test]
fn test_destroy_nonexistent_buffer() {
    let mut mgr = GpuResourceManager::new(1024 * 1024);
    let result = mgr.destroy_buffer(999);
    assert!(result.is_err());
}

#[test]
fn test_get_buffer() {
    let mut mgr = GpuResourceManager::new(1024 * 1024);
    let id = mgr.create_buffer(4096, BufferType::Uniform).unwrap();

    let buffer = mgr.get_buffer(id).unwrap();
    assert_eq!(buffer.id, id);
    assert_eq!(buffer.size, 4096);
    assert_eq!(buffer.buffer_type, BufferType::Uniform);
    assert!(buffer.is_allocated);
}

#[test]
fn test_get_nonexistent_buffer() {
    let mgr = GpuResourceManager::new(1024 * 1024);
    assert!(mgr.get_buffer(999).is_none());
}

#[test]
fn test_memory_tracking_mixed() {
    let mut mgr = GpuResourceManager::new(1024 * 1024);

    // 创建纹理
    let tex_desc = TextureDescriptor {
        width: 32,
        height: 32,
        format: TextureFormat::RGBA8,
        usage: TextureUsage::SAMPLED(),
        mip_levels: 1,
    };
    let tex_id = mgr.create_texture(tex_desc).unwrap();
    // 32 * 32 * 4 = 4096

    // 创建缓冲区
    let buf_id = mgr.create_buffer(2048, BufferType::Vertex).unwrap();

    assert_eq!(mgr.memory_usage(), 4096 + 2048);
    assert_eq!(mgr.texture_count(), 1);
    assert_eq!(mgr.buffer_count(), 1);

    // 销毁纹理
    mgr.destroy_texture(tex_id).unwrap();
    assert_eq!(mgr.memory_usage(), 2048);

    // 销毁缓冲区
    mgr.destroy_buffer(buf_id).unwrap();
    assert_eq!(mgr.memory_usage(), 0);
}

#[test]
fn test_memory_limit() {
    let mut mgr = GpuResourceManager::new(5000);

    // 创建纹理 (4096 字节)
    let tex_desc = TextureDescriptor {
        width: 32,
        height: 32,
        format: TextureFormat::RGBA8,
        usage: TextureUsage::SAMPLED(),
        mip_levels: 1,
    };
    let result = mgr.create_texture(tex_desc);
    assert!(result.is_ok());

    // 尝试创建超过限制的缓冲区
    let result = mgr.create_buffer(2000, BufferType::Vertex);
    assert!(result.is_err());
    assert_eq!(result.unwrap_err(), CompositorError::OutOfMemory);
}

#[test]
fn test_memory_available() {
    let mgr = GpuResourceManager::new(10000);
    assert_eq!(mgr.memory_available(), 10000);
}

#[test]
fn test_memory_available_unlimited() {
    let mgr = GpuResourceManager::new(0);
    assert_eq!(mgr.memory_available(), usize::MAX);
}

#[test]
fn test_buffer_types() {
    let mut mgr = GpuResourceManager::new(1024 * 1024);

    let vertex_id = mgr.create_buffer(100, BufferType::Vertex).unwrap();
    let index_id = mgr.create_buffer(200, BufferType::Index).unwrap();
    let uniform_id = mgr.create_buffer(300, BufferType::Uniform).unwrap();
    let storage_id = mgr.create_buffer(400, BufferType::Storage).unwrap();
    let staging_id = mgr.create_buffer(500, BufferType::Staging).unwrap();

    assert_eq!(mgr.get_buffer(vertex_id).unwrap().buffer_type, BufferType::Vertex);
    assert_eq!(mgr.get_buffer(index_id).unwrap().buffer_type, BufferType::Index);
    assert_eq!(mgr.get_buffer(uniform_id).unwrap().buffer_type, BufferType::Uniform);
    assert_eq!(mgr.get_buffer(storage_id).unwrap().buffer_type, BufferType::Storage);
    assert_eq!(mgr.get_buffer(staging_id).unwrap().buffer_type, BufferType::Staging);
}



// ---- config ----

#[test]
fn test_vulkan_config_default() {
    let config = VulkanConfig::default();
    assert_eq!(config.application_name, "OmniAgent Compositor");
    assert_eq!(config.engine_name, "OmniAgent");
    assert_eq!(config.version, (0, 1, 0));
    assert!(config.preferred_gpu_index.is_none());
    assert!(!config.enable_validation);
    assert!(config.enable_vsync);
    assert_eq!(config.surface_size, (1920, 1080));
    assert_eq!(config.surface_format, SurfaceFormat::BGRA8Unorm);
    assert_eq!(config.sample_count, SampleCount::X1);
    assert_eq!(config.max_frames_in_flight, 2);
}

#[test]
fn test_vulkan_config_custom() {
    let config = VulkanConfig {
        application_name: "Test App".to_string(),
        engine_name: "Test Engine".to_string(),
        version: (1, 2, 3),
        preferred_gpu_index: Some(0),
        enable_validation: true,
        enable_vsync: false,
        surface_size: (2560, 1440),
        surface_format: SurfaceFormat::RGBA8Unorm,
        sample_count: SampleCount::X4,
        max_frames_in_flight: 3,
    };
    assert_eq!(config.application_name, "Test App");
    assert_eq!(config.version, (1, 2, 3));
    assert_eq!(config.preferred_gpu_index, Some(0));
    assert!(config.enable_validation);
    assert!(!config.enable_vsync);
    assert_eq!(config.surface_size, (2560, 1440));
    assert_eq!(config.surface_format, SurfaceFormat::RGBA8Unorm);
    assert_eq!(config.sample_count, SampleCount::X4);
    assert_eq!(config.max_frames_in_flight, 3);
}

#[test]
fn test_vulkan_config_clone() {
    let config = VulkanConfig::default();
    let cloned = config.clone();
    assert_eq!(config.application_name, cloned.application_name);
    assert_eq!(config.version, cloned.version);
}

#[test]
fn test_surface_format_values() {
    assert_eq!(SurfaceFormat::BGRA8Unorm as u8, 0);
    assert_eq!(SurfaceFormat::RGBA8Unorm as u8, 1);
    assert_eq!(SurfaceFormat::BGR8Unorm as u8, 2);
    assert_eq!(SurfaceFormat::RGB8Unorm as u8, 3);
}

#[test]
fn test_sample_count_values() {
    assert_eq!(SampleCount::X1 as u8, 0);
    assert_eq!(SampleCount::X2 as u8, 1);
    assert_eq!(SampleCount::X4 as u8, 2);
    assert_eq!(SampleCount::X8 as u8, 3);
}

#[test]
fn test_swapchain_new() {
    let sc = Swapchain::new(1920, 1080, SurfaceFormat::BGRA8Unorm, 3);
    assert_eq!(sc.width, 1920);
    assert_eq!(sc.height, 1080);
    assert_eq!(sc.format, SurfaceFormat::BGRA8Unorm);
    assert_eq!(sc.image_count, 3);
    assert_eq!(sc.current_image_index, 0);
    assert!(!sc.is_suboptimal);
}

#[test]
fn test_swapchain_advance() {
    let mut sc = Swapchain::new(800, 600, SurfaceFormat::RGBA8Unorm, 3);
    assert_eq!(sc.current_image_index, 0);
    sc.advance();
    assert_eq!(sc.current_image_index, 1);
    sc.advance();
    assert_eq!(sc.current_image_index, 2);
    sc.advance();
    // 应循环回到 0
    assert_eq!(sc.current_image_index, 0);
}

#[test]
fn test_swapchain_single_image_stays() {
    let mut sc = Swapchain::new(1, 1, SurfaceFormat::RGB8Unorm, 1);
    sc.advance();
    assert_eq!(sc.current_image_index, 0);
    assert_eq!(sc.width, 1);
}

#[test]
fn test_swapchain_full_cycle_returns() {
    let mut sc = Swapchain::new(8, 8, SurfaceFormat::BGR8Unorm, 5);
    sc.current_image_index = 3;
    for _ in 0..5 {
        sc.advance();
    }
    assert_eq!(sc.current_image_index, 3);
}

#[test]
fn test_animation_direction_values() {
    assert_eq!(AnimationDirection::Normal as u8, 0);
    assert_eq!(AnimationDirection::Reverse as u8, 1);
    assert_eq!(AnimationDirection::Alternate as u8, 2);
}

#[test]
fn elapsed_time_starts_at_start_and_wraps_into_u32() {
    assert_eq!(elapsed_since(100, 50), None);
    assert_eq!(elapsed_since(100, 100), Some(0));
    assert_eq!(elapsed_since(100, 350), Some(250));
    assert_eq!(elapsed_since(0, (1u64 << 32) + 5), Some(5));
}
