use lib::memory::{MemoryError, QuantType, TensorShape, MemoryRegion, MemoryRegionType};
use lib::memory::{
    concat_check, concat_dims, half_bits, read_stored_values, slice_check, slice_dims, slice_elements,
    slice_strides_in_range, transpose_elements, MemoryPool,
};

#[test]
fn test_quant_type_bytes_per_element() {
    assert_eq!(QuantType::Q4.bytes_per_element(), 1);
    assert_eq!(QuantType::Q8.bytes_per_element(), 1);
    assert_eq!(QuantType::F16.bytes_per_element(), 2);
    assert_eq!(QuantType::B1.bytes_per_element(), 1);
    assert_eq!(QuantType::F32.bytes_per_element(), 4);
    assert_eq!(QuantType::U8.bytes_per_element(), 1);
    assert_eq!(QuantType::Mixed.bytes_per_element(), 4);
}

#[test]
fn test_quant_type_bits() {
    assert_eq!(QuantType::Q4.bits(), 4);
    assert_eq!(QuantType::Q8.bits(), 8);
    assert_eq!(QuantType::F16.bits(), 16);
    assert_eq!(QuantType::B1.bits(), 1);
    assert_eq!(QuantType::F32.bits(), 32);
    assert_eq!(QuantType::U8.bits(), 8);
    assert_eq!(QuantType::Mixed.bits(), 32);
}

#[test]
fn test_quant_type_is_quantized() {
    assert!(QuantType::Q4.is_quantized());
    assert!(QuantType::Q8.is_quantized());
    assert!(QuantType::B1.is_quantized());
    assert!(QuantType::U8.is_quantized());
    assert!(!QuantType::F16.is_quantized());
    assert!(!QuantType::F32.is_quantized());
    assert!(!QuantType::Mixed.is_quantized());
}

#[test]
fn test_tensor_shape() {
    let scalar_shape = TensorShape::new(vec![]);
    assert!(scalar_shape.is_scalar());
    assert!(!scalar_shape.is_vector());
    assert!(!scalar_shape.is_matrix());
    assert_eq!(scalar_shape.rank(), 0);
    assert_eq!(scalar_shape.num_elements(), 1);

    let vector_shape = TensorShape::new(vec![5]);
    assert!(!vector_shape.is_scalar());
    assert!(vector_shape.is_vector());
    assert!(!vector_shape.is_matrix());
    assert_eq!(vector_shape.rank(), 1);
    assert_eq!(vector_shape.num_elements(), 5);

    let matrix_shape = TensorShape::new(vec![3, 4]);
    assert!(!matrix_shape.is_scalar());
    assert!(!matrix_shape.is_vector());
    assert!(matrix_shape.is_matrix());
    assert_eq!(matrix_shape.rank(), 2);
    assert_eq!(matrix_shape.num_elements(), 12);
}

#[test]
fn test_region_allocate() {
    let mut region = MemoryRegion::new(1, "test", MemoryRegionType::Buffer, 1024);

    let addr1 = region.allocate(100, 16).unwrap();
    assert_eq!(addr1, region.base_addr); // 第一个分配从基址开始

    let addr2 = region.allocate(200, 16).unwrap();
    assert!(addr2 > addr1);

    assert_eq!(region.used, 300);
    assert_eq!(region.available(), 724);
}

#[test]
fn test_region_deallocate() {
    let mut region = MemoryRegion::new(1, "test", MemoryRegionType::Buffer, 1024);

    let addr = region.allocate(100, 16).unwrap();
    assert_eq!(region.used, 100);

    region.deallocate(addr, 100).unwrap();
    assert_eq!(region.used, 0);

    // 释放不存在的地址应返回错误
    assert!(region.deallocate(9999, 100).is_err());
}

#[test]
fn test_region_full() {
    let mut region = MemoryRegion::new(1, "test", MemoryRegionType::Buffer, 100);

    region.allocate(80, 16).unwrap();

    // 尝试分配超过可用空间的内存
    let result = region.allocate(50, 16);
    assert!(result.is_err());
    match result.unwrap_err() {
        MemoryError::RegionFull {
            region_id,
            requested,
            available,
        } => {
            assert_eq!(region_id, 1);
            assert_eq!(requested, 50);
            assert!(available < 50);
        }
        other => panic!("期望 RegionFull 错误, 得到: {:?}", other),
    }
}

#[test]
fn test_region_first_fit_reuses_gaps() {
    let mut region = MemoryRegion::new(7, "r", MemoryRegionType::Scratch, 256);
    let a = region.allocate(32, 16).unwrap();
    let b = region.allocate(32, 16).unwrap();
    let c = region.allocate(32, 16).unwrap();
    assert_eq!((a, b, c), (0, 32, 64));
    region.deallocate(b, 32).unwrap();
    assert_eq!(region.used, 64);
    // the gap left by b is found first
    assert_eq!(region.allocate(16, 16).unwrap(), 32);
    // a larger alignment skips to the next multiple of it
    assert_eq!(region.allocate(8, 32).unwrap(), 96);
    assert_eq!(region.used, 88);
    assert_eq!(region.available(), 168);
}

#[test]
fn test_region_errors() {
    let mut region = MemoryRegion::new(3, "w", MemoryRegionType::Weights, 64);
    assert!(region.read_only);
    assert_eq!(region.allocate(8, 3), Err(MemoryError::InvalidAlignment(3)));
    assert_eq!(region.allocate(8, 0), Err(MemoryError::InvalidAlignment(0)));
    assert_eq!(
        region.allocate(65, 16),
        Err(MemoryError::RegionFull { region_id: 3, requested: 65, available: 64 })
    );
    assert_eq!(
        region.deallocate(5, 1),
        Err(MemoryError::DeallocateError("未找到地址 5 处的已分配块".to_string()))
    );
    assert_eq!(
        MemoryError::RegionFull { region_id: 3, requested: 65, available: 64 }.message(),
        "内存区域 3 已满: 请求 65 字节, 可用 64 字节"
    );
    assert_eq!(MemoryError::OutOfMemory { requested: 1, available: 0 }.message(), "内存不足: 请求 1 字节, 可用 0 字节");
}

#[test]
fn test_tensor_shape_with_zero_size() {
    assert_eq!(TensorShape::new(vec![4, 0, 7]).num_elements(), 0);
}

#[test]
fn test_tensor_transpose() {
    let data: Vec<f32> = vec![1.0, 2.0, 3.0, 4.0, 5.0, 6.0];
    let shape = TensorShape::new(vec![2, 3]);
    assert!(shape.is_matrix());
    let t_data = transpose_elements(&data, shape.dims[0], shape.dims[1]);
    assert_eq!(t_data, vec![1.0, 4.0, 2.0, 5.0, 3.0, 6.0]);
    assert!(!TensorShape::new(vec![4]).is_matrix());
}

#[test]
fn test_tensor_slice() {
    let dims = vec![3usize, 4];
    let data: Vec<f32> = (0..12).map(|i| i as f32).collect();
    let ranges = [1..2, 1..3];
    assert!(slice_check(&dims, &ranges).is_ok());
    assert_eq!(slice_dims(&ranges), vec![1, 2]);
    assert!(slice_strides_in_range(&dims, &ranges));
    let s_data = slice_elements(&data, &dims, &ranges);
    assert_eq!(s_data, vec![5.0, 6.0]);
}

#[test]
fn test_tensor_concat() {
    let shapes = vec![TensorShape::new(vec![2, 3]), TensorShape::new(vec![1, 3])];
    assert!(concat_check(&shapes, 0).is_ok());
    assert_eq!(concat_dims(&shapes, 0).dims, vec![3, 3]);
    assert!(concat_check(&Vec::new(), 0).is_err());
}

#[test]
fn test_pool_create_region() {
    let mut pool = MemoryPool::new(10240);
    let region_id = pool.create_region("weights", MemoryRegionType::Weights, 4096).unwrap();
    assert!(region_id > 0);
    assert_eq!(pool.region_count(), 1);
}

#[test]
fn test_pool_register_tensor() {
    let mut pool = MemoryPool::new(10240);
    let region_id = pool.create_region("activations", MemoryRegionType::Activations, 4096).unwrap();
    // a 2 x 3 tensor of f32 values takes 24 bytes
    pool.register_tensor("test_tensor", 24, region_id).unwrap();
    assert!(pool.has_tensor("test_tensor"));
    assert_eq!(pool.tensor_count(), 1);
    assert!(pool.register_tensor("test_tensor", 4, region_id).is_err());
}

#[test]
fn test_pool_get_tensor() {
    let mut pool = MemoryPool::new(10240);
    let region_id = pool.create_region("buffer", MemoryRegionType::Buffer, 4096).unwrap();
    pool.register_tensor("my_tensor", 12, region_id).unwrap();
    assert!(pool.has_tensor("my_tensor"));
    assert!(!pool.has_tensor("nonexistent"));
}

#[test]
fn test_pool_release_tensor() {
    let mut pool = MemoryPool::new(10240);
    let region_id = pool.create_region("buffer", MemoryRegionType::Buffer, 4096).unwrap();
    pool.register_tensor("temp", 16, region_id).unwrap();
    assert_eq!(pool.tensor_count(), 1);
    assert!(pool.total_used() > 0);
    pool.release_tensor("temp").unwrap();
    assert_eq!(pool.tensor_count(), 0);
    assert_eq!(pool.total_used(), 0);
    assert!(pool.release_tensor("nonexistent").is_err());
}

#[test]
fn test_pool_stats() {
    let mut pool = MemoryPool::new(10240);
    let region_id = pool.create_region("buffer", MemoryRegionType::Buffer, 4096).unwrap();
    pool.register_tensor("data", 16, region_id).unwrap();
    assert_eq!(pool.total_capacity(), 10240);
    assert!(pool.total_used() > 0);
    assert_eq!(pool.region_count(), 1);
    assert_eq!(pool.tensor_count(), 1);
    let utilization_percent = pool.total_used() as f32 / pool.total_capacity() as f32 * 100.0;
    assert!(utilization_percent > 0.0);
    assert!(utilization_percent < 100.0);
}

#[test]
fn test_pool_out_of_memory() {
    let mut pool = MemoryPool::new(100);
    pool.create_region("big", MemoryRegionType::Buffer, 80).unwrap();
    let result = pool.create_region("too_big", MemoryRegionType::Buffer, 50);
    assert!(result.is_err());
    match result.unwrap_err() {
        MemoryError::OutOfMemory { requested, available } => {
            assert_eq!(requested, 50);
            assert!(available < 50);
        }
        other => panic!("期望 OutOfMemory 错误, 得到: {:?}", other),
    }
}

#[test]
fn pool_region_ids_count_up_and_removal_frees_capacity() {
    let mut pool = MemoryPool::new(100);
    assert_eq!(pool.create_region("a", MemoryRegionType::Buffer, 60), Ok(1));
    assert_eq!(pool.create_region("b", MemoryRegionType::Buffer, 40), Ok(2));
    assert_eq!(
        pool.create_region("c", MemoryRegionType::Buffer, 1),
        Err(MemoryError::OutOfMemory { requested: 1, available: 0 })
    );
    assert_eq!(pool.remove_region(1), Ok(()));
    assert_eq!(pool.remove_region(1), Err(MemoryError::RegionNotFound(1)));
    assert_eq!(pool.create_region("c", MemoryRegionType::Buffer, 60), Ok(3));
    assert_eq!(pool.region_count(), 2);
}

#[test]
fn pool_register_places_bytes_in_region() {
    let mut pool = MemoryPool::new(1000);
    let id = pool.create_region("r", MemoryRegionType::Buffer, 64).unwrap();
    assert_eq!(pool.register_tensor("a", 40, 99), Err(MemoryError::RegionNotFound(99)));
    pool.register_tensor("a", 40, id).unwrap();
    assert_eq!(pool.get_region(id).unwrap().used, 40);
    // 40 bytes at 0, the next 16-aligned start is 48, leaving 16 bytes
    assert_eq!(
        pool.register_tensor("b", 20, id),
        Err(MemoryError::RegionFull { region_id: id, requested: 20, available: 24 })
    );
    pool.register_tensor("b", 16, id).unwrap();
    assert_eq!(pool.total_used(), 56);
    assert_eq!(pool.list_tensors(), vec!["a".to_string(), "b".to_string()]);
    match pool.register_tensor("a", 1, id) {
        Err(MemoryError::TensorAlreadyExists(s)) => assert_eq!(s, "a"),
        other => panic!("unexpected {:?}", other),
    }
}

#[test]
fn pool_release_then_register_again() {
    let mut pool = MemoryPool::new(1000);
    let id = pool.create_region("r", MemoryRegionType::Buffer, 256).unwrap();
    pool.register_tensor("t", 32, id).unwrap();
    pool.release_tensor("t").unwrap();
    assert_eq!(pool.total_used(), 0);
    assert!(!pool.has_tensor("t"));
    match pool.release_tensor("t") {
        Err(MemoryError::TensorNotFound(s)) => assert_eq!(s, "t"),
        other => panic!("unexpected {:?}", other),
    }
    pool.register_tensor("t", 32, id).unwrap();
    // the first 32 bytes stay placed: the new block starts at 32
    assert_eq!(pool.get_region(id).unwrap().used, 64);
}

#[test]
fn pool_compact_merges_blocks() {
    let mut pool = MemoryPool::new(1000);
    let id = pool.create_region("r", MemoryRegionType::Buffer, 256).unwrap();
    pool.register_tensor("a", 10, id).unwrap();
    pool.register_tensor("b", 10, id).unwrap();
    assert!(pool.can_compact());
    assert_eq!(pool.compact(), Ok(()));
    let r = pool.get_region(id).unwrap();
    assert_eq!(r.used, 20);
    assert_eq!(r.gap_bytes(), 0);
}

#[test]
fn half_bits_truncates() {
    assert_eq!(half_bits(1.0f32.to_bits()), 0x3C00);
    assert_eq!(half_bits((-2.0f32).to_bits()), 0xC000);
    assert_eq!(half_bits(1.5f32.to_bits()), 0x3E00);
    assert_eq!(half_bits(0.0f32.to_bits()), 0);
    assert_eq!(half_bits(1.0e-10f32.to_bits()), 0);
    assert_eq!(half_bits(1.0e10f32.to_bits()), 0x7C00);
    assert_eq!(half_bits((-1.0e10f32).to_bits()), 0xFC00);
}

#[test]
fn stored_values_by_type() {
    let bytes: Vec<u8> = vec![1, 255, 7, 128];
    assert_eq!(read_stored_values(QuantType::U8, &bytes, 4), vec![1, 255, 7, 128]);
    assert_eq!(read_stored_values(QuantType::Q8, &bytes, 4), vec![1, -1, 7, -128]);
    assert_eq!(read_stored_values(QuantType::Q4, &bytes, 9), vec![1, 255, 7, 128]);
    let words: Vec<u8> = 1.5f32.to_le_bytes().iter().chain(2.0f32.to_le_bytes().iter()).cloned().collect();
    assert_eq!(
        read_stored_values(QuantType::F32, &words, 2),
        vec![1.5f32.to_bits() as i32, 2.0f32.to_bits() as i32]
    );
    assert_eq!(read_stored_values(QuantType::Mixed, &words, 5).len(), 2);
}

#[test]
fn slice_and_concat_errors() {
    let dims = vec![3usize, 4];
    match slice_check(&dims, &[0..1]) {
        Err(MemoryError::InvalidShape(s)) => assert_eq!(s, "切片维度数 1 与张量秩 2 不匹配"),
        other => panic!("unexpected {:?}", other),
    }
    match slice_check(&dims, &[0..1, 2..5]) {
        Err(MemoryError::InvalidShape(s)) => assert_eq!(s, "切片范围超出维度 1 的大小: [2, 5) > 4"),
        other => panic!("unexpected {:?}", other),
    }
    let shapes = vec![TensorShape::new(vec![2, 3]), TensorShape::new(vec![2, 4])];
    match concat_check(&shapes, 0) {
        Err(MemoryError::InvalidShape(s)) => assert_eq!(s, "维度 1 大小不匹配: 3 vs 4"),
        other => panic!("unexpected {:?}", other),
    }
    assert!(concat_check(&shapes, 1).is_ok());
    assert_eq!(concat_dims(&shapes, 1).dims, vec![2, 7]);
    match concat_check(&shapes, 2) {
        Err(MemoryError::InvalidShape(s)) => assert_eq!(s, "拼接轴 2 超出张量秩 2"),
        other => panic!("unexpected {:?}", other),
    }
    let ranks = vec![TensorShape::new(vec![2, 3]), TensorShape::new(vec![6])];
    match concat_check(&ranks, 0) {
        Err(MemoryError::IncompatibleType(s)) => assert_eq!(s, "张量秩不匹配: 2 vs 1"),
        other => panic!("unexpected {:?}", other),
    }
}

#[test]
fn slice_of_three_dims_in_row_order() {
    let dims = vec![2usize, 3, 4];
    let data: Vec<u32> = (0..24).collect();
    let ranges = [0..2, 1..3, 2..4];
    assert!(slice_strides_in_range(&dims, &ranges));
    assert_eq!(slice_elements(&data, &dims, &ranges), vec![6, 7, 10, 11, 18, 19, 22, 23]);
    let empty = [1..1, 0..3, 0..4];
    assert_eq!(slice_elements(&data, &dims, &empty), Vec::<u32>::new());
}

#[test]
fn transpose_twice_gives_matrix_back() {
    let data: Vec<u32> = (0..12).collect();
    let t = transpose_elements(&data, 3, 4);
    assert_eq!(t, vec![0, 4, 8, 1, 5, 9, 2, 6, 10, 3, 7, 11]);
    assert_eq!(transpose_elements(&t, 4, 3), data);
}

#[test]
fn pool_register_then_release_restores_counts() {
    let mut pool = MemoryPool::new(500);
    let id = pool.create_region("r", MemoryRegionType::Scratch, 200).unwrap();
    pool.register_tensor("x", 8, id).unwrap();
    let used = pool.total_used();
    let count = pool.tensor_count();
    pool.register_tensor("y", 24, id).unwrap();
    pool.release_tensor("y").unwrap();
    assert_eq!(pool.total_used(), used);
    assert_eq!(pool.tensor_count(), count);
    assert_eq!(pool.list_tensors(), vec!["x".to_string()]);
}

#[test]
fn region_full_when_aligned_start_passes_the_end() {
    let mut region = MemoryRegion::new(1, "r", MemoryRegionType::Buffer, 100);
    assert_eq!(region.allocate(99, 16), Ok(0));
    assert_eq!(
        region.allocate(1, 16),
        Err(MemoryError::RegionFull { region_id: 1, requested: 1, available: 1 })
    );
    assert_eq!(region.used, 99);
}

#[test]
fn region_skips_gap_whose_aligned_start_passes_the_next_block() {
    let mut region = MemoryRegion::new(2, "r", MemoryRegionType::Buffer, 100);
    region.alignment = 4;
    assert_eq!(region.allocate(10, 4), Ok(0));
    assert_eq!(region.allocate(2, 4), Ok(12));
    region.alignment = 16;
    assert_eq!(region.allocate(4, 16), Ok(16));
    assert_eq!(region.used, 16);
}
