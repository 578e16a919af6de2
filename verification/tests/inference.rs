use std::collections::HashSet;
use lib::inference::types::{ModelId, ModelAvailability, InferencePreference, PrivacyLevel, InferenceTask, InferenceInput, ModelRequest, LocalBackend, CloudProvider, RoutingDecision, InferenceProvider, TokenUsage, InferenceError, StreamChunk};
use lib::inference::stream::{StreamSession, StreamManager};
use lib::inference::engines::{engine_for_decision, EngineSlot};


// ==================== PrivacyLevel 测试 ====================

#[test]
fn test_privacy_level_ordering() {
    // 隐私级别应有正确的排序关系
    assert!(PrivacyLevel::Public < PrivacyLevel::Internal);
    assert!(PrivacyLevel::Internal < PrivacyLevel::Sensitive);
    assert!(PrivacyLevel::Sensitive < PrivacyLevel::Confidential);
}

#[test]
fn test_privacy_level_default() {
    assert_eq!(PrivacyLevel::default(), PrivacyLevel::Public);
}

#[test]
fn test_privacy_level_repr() {
    assert_eq!(PrivacyLevel::Public as u8, 0);
    assert_eq!(PrivacyLevel::Internal as u8, 1);
    assert_eq!(PrivacyLevel::Sensitive as u8, 2);
    assert_eq!(PrivacyLevel::Confidential as u8, 3);
}

// ==================== InferencePreference 测试 ====================

#[test]
fn test_inference_preference_default() {
    assert_eq!(InferencePreference::default(), InferencePreference::Auto);
}

#[test]
fn test_inference_preference_repr() {
    assert_eq!(InferencePreference::Auto as u8, 0);
    assert_eq!(InferencePreference::LocalOnly as u8, 1);
    assert_eq!(InferencePreference::CloudOnly as u8, 2);
    assert_eq!(InferencePreference::LatencyFirst as u8, 3);
    assert_eq!(InferencePreference::AccuracyFirst as u8, 4);
    assert_eq!(InferencePreference::PrivacyFirst as u8, 5);
}

#[test]
fn test_inference_preference_equality() {
    assert_eq!(InferencePreference::Auto, InferencePreference::Auto);
    assert_ne!(InferencePreference::LocalOnly, InferencePreference::CloudOnly);
}

// ==================== InferenceError 测试 ====================

#[test]
fn test_inference_error_display() {
    let err = InferenceError::ModelNotFound("llama-7b".to_string());
    assert_eq!(err.message(), "模型未找到: llama-7b");

    let err = InferenceError::ModelNotLoaded("gpt-4".to_string());
    assert_eq!(err.message(), "模型未加载: gpt-4");

    let err = InferenceError::ModelLoadFailed("磁盘空间不足".to_string());
    assert_eq!(err.message(), "模型加载失败: 磁盘空间不足");

    let err = InferenceError::InferenceFailed("CUDA 错误".to_string());
    assert_eq!(err.message(), "推理失败: CUDA 错误");

    let err = InferenceError::Timeout(5000);
    assert_eq!(err.message(), "推理超时: 5000ms");

    let err = InferenceError::InvalidInput("空文本".to_string());
    assert_eq!(err.message(), "无效输入: 空文本");

    let err = InferenceError::UnsupportedTask(InferenceTask::ImageGeneration);
    assert!(err.message().contains("不支持的任务类型"));

    let err = InferenceError::ApiError {
        provider: CloudProvider::OpenAI,
        message: "API 密钥无效".to_string(),
    };
    assert!(err.message().contains("OpenAI"));
    assert!(err.message().contains("API 密钥无效"));

    let err = InferenceError::RateLimited {
        provider: CloudProvider::Anthropic,
        retry_after_ms: 30000,
    };
    assert!(err.message().contains("速率限制"));
    assert!(err.message().contains("30000ms"));

    let err = InferenceError::OutOfMemory {
        required: 4096,
        available: 1024,
    };
    assert!(err.message().contains("4096"));
    assert!(err.message().contains("1024"));

    let err = InferenceError::ContextTooLarge {
        tokens: 100000,
        max_tokens: 32000,
    };
    assert!(err.message().contains("100000"));
    assert!(err.message().contains("32000"));

    let err = InferenceError::NetworkError("连接超时".to_string());
    assert_eq!(err.message(), "网络错误: 连接超时");

    let err = InferenceError::AuthenticationError("Token 过期".to_string());
    assert_eq!(err.message(), "认证错误: Token 过期");
}

#[test]
fn test_inference_error_equality() {
    assert_eq!(
        InferenceError::ModelNotFound("a".to_string()),
        InferenceError::ModelNotFound("a".to_string())
    );
    assert_ne!(
        InferenceError::ModelNotFound("a".to_string()),
        InferenceError::ModelNotFound("b".to_string())
    );
    assert_eq!(InferenceError::Timeout(100), InferenceError::Timeout(100));
    assert_ne!(InferenceError::Timeout(100), InferenceError::Timeout(200));
}

// ==================== TokenUsage 测试 ====================

#[test]
fn test_token_usage_new() {
    let usage = TokenUsage::new(100, 50);
    assert_eq!(usage.prompt_tokens, 100);
    assert_eq!(usage.completion_tokens, 50);
    assert_eq!(usage.total_tokens, 150);
}

#[test]
fn test_token_usage_zero() {
    let usage = TokenUsage::new(0, 0);
    assert_eq!(usage.prompt_tokens, 0);
    assert_eq!(usage.completion_tokens, 0);
    assert_eq!(usage.total_tokens, 0);
}

#[test]
fn test_token_usage_large_values() {
    let usage = TokenUsage::new(u32::MAX, 1);
    assert_eq!(usage.prompt_tokens, u32::MAX);
    assert_eq!(usage.completion_tokens, 1);
    // 溢出检查：u32::MAX + 1 会溢出
    assert_eq!(usage.total_tokens, 0); // 溢出回绕
}

#[test]
fn test_token_usage_equality() {
    assert_eq!(TokenUsage::new(10, 20), TokenUsage::new(10, 20));
    assert_ne!(TokenUsage::new(10, 20), TokenUsage::new(20, 10));
}

#[test]
fn test_token_usage_copy() {
    let usage = TokenUsage::new(10, 20);
    let usage2 = usage;
    assert_eq!(usage.prompt_tokens, 10);
    assert_eq!(usage2.prompt_tokens, 10);
}

// ==================== RoutingDecision 测试 ====================

#[test]
fn test_routing_decision_local_candle() {
    let decision = RoutingDecision::LocalCandle {
        model_id: ModelId::new("llama-7b"),
    };
    assert_eq!(
        decision,
        RoutingDecision::LocalCandle {
            model_id: ModelId::new("llama-7b")
        }
    );
}

#[test]
fn test_routing_decision_local_onnx() {
    let decision = RoutingDecision::LocalOnnx {
        model_id: ModelId::new("whisper"),
    };
    assert_eq!(
        decision,
        RoutingDecision::LocalOnnx {
            model_id: ModelId::new("whisper")
        }
    );
}

#[test]
fn test_routing_decision_local_tract() {
    let decision = RoutingDecision::LocalTract {
        model_id: ModelId::new("tinybert"),
    };
    assert_eq!(
        decision,
        RoutingDecision::LocalTract {
            model_id: ModelId::new("tinybert")
        }
    );
}

#[test]
fn test_routing_decision_cloud() {
    let decision = RoutingDecision::Cloud {
        provider: CloudProvider::OpenAI,
        model_id: ModelId::new("gpt-4"),
    };
    assert_eq!(
        decision,
        RoutingDecision::Cloud {
            provider: CloudProvider::OpenAI,
            model_id: ModelId::new("gpt-4")
        }
    );
}

#[test]
fn test_routing_decision_fallback() {
    let primary = RoutingDecision::LocalCandle {
        model_id: ModelId::new("llama-7b"),
    };
    let fallback = RoutingDecision::Cloud {
        provider: CloudProvider::OpenAI,
        model_id: ModelId::new("gpt-4"),
    };
    let decision = RoutingDecision::Fallback {
        primary: Box::new(primary),
        fallback: Box::new(fallback),
    };

    assert_eq!(
        decision,
        RoutingDecision::Fallback {
            primary: Box::new(RoutingDecision::LocalCandle {
                model_id: ModelId::new("llama-7b")
            }),
            fallback: Box::new(RoutingDecision::Cloud {
                provider: CloudProvider::OpenAI,
                model_id: ModelId::new("gpt-4")
            })
        }
    );
}

#[test]
fn test_routing_decision_clone() {
    let decision = RoutingDecision::LocalCandle {
        model_id: ModelId::new("llama-7b"),
    };
    let decision2 = decision.clone();
    assert_eq!(decision, decision2);
}

#[test]
fn test_routing_decision_debug() {
    let decision = RoutingDecision::Cloud {
        provider: CloudProvider::Anthropic,
        model_id: ModelId::new("mistral-7b"),
    };
    let debug_str = format!("{:?}", decision);
    assert!(debug_str.contains("Anthropic"));
    assert!(debug_str.contains("mistral-7b"));
}

// ==================== ModelId 测试 ====================

#[test]
fn test_model_id_new() {
    let id = ModelId::new("llama-7b");
    assert_eq!(id.as_str(), "llama-7b");
}

#[test]
fn test_model_id_display() {
    let id = ModelId::new("gpt-4");
    assert_eq!(id.display_text(), "gpt-4");
}

#[test]
fn test_model_id_hash() {
    let mut set = HashSet::new();
    set.insert(ModelId::new("model-a"));
    set.insert(ModelId::new("model-b"));
    set.insert(ModelId::new("model-a")); // 重复
    assert_eq!(set.len(), 2);
}

#[test]
fn test_model_id_equality() {
    assert_eq!(ModelId::new("a"), ModelId::new("a"));
    assert_ne!(ModelId::new("a"), ModelId::new("b"));
}

// ==================== ModelAvailability 测试 ====================

#[test]
fn test_model_availability_default() {
    assert_eq!(ModelAvailability::default(), ModelAvailability::Unavailable);
}

#[test]
fn test_model_availability_repr() {
    assert_eq!(ModelAvailability::Available as u8, 0);
    assert_eq!(ModelAvailability::Loading as u8, 1);
    assert_eq!(ModelAvailability::Unavailable as u8, 2);
    assert_eq!(ModelAvailability::Error as u8, 3);
}

// ==================== InferenceTask 测试 ====================

#[test]
fn test_inference_task_equality() {
    assert_eq!(InferenceTask::TextGeneration, InferenceTask::TextGeneration);
    assert_ne!(InferenceTask::TextGeneration, InferenceTask::TextEmbedding);
}

#[test]
fn test_inference_task_translation() {
    let task = InferenceTask::Translation {
        from: "en".to_string(),
        to: "zh".to_string(),
    };
    assert_eq!(
        task,
        InferenceTask::Translation {
            from: "en".to_string(),
            to: "zh".to_string()
        }
    );
}

// ==================== InferenceInput 测试 ====================

#[test]
fn test_inference_input_text() {
    let input = InferenceInput::Text("hello world".to_string());
    match input {
        InferenceInput::Text(s) => assert_eq!(s, "hello world"),
        _ => panic!("应为 Text 变体"),
    }
}

#[test]
fn test_inference_input_text_with_context() {
    let input = InferenceInput::TextWithContext {
        text: "question".to_string(),
        context: "background info".to_string(),
    };
    match input {
        InferenceInput::TextWithContext { text, context } => {
            assert_eq!(text, "question");
            assert_eq!(context, "background info");
        }
        _ => panic!("应为 TextWithContext 变体"),
    }
}

#[test]
fn test_inference_input_image() {
    let input = InferenceInput::Image {
        data: vec![0xFF, 0xD8],
        format: "jpeg".to_string(),
    };
    match input {
        InferenceInput::Image { data, format } => {
            assert_eq!(data, vec![0xFF, 0xD8]);
            assert_eq!(format, "jpeg");
        }
        _ => panic!("应为 Image 变体"),
    }
}

#[test]
fn test_inference_input_audio() {
    let input = InferenceInput::Audio {
        data: vec![0, 1, 2],
        format: "wav".to_string(),
        sample_rate: 16000,
    };
    match input {
        InferenceInput::Audio { data, format, sample_rate } => {
            assert_eq!(data, vec![0, 1, 2]);
            assert_eq!(format, "wav");
            assert_eq!(sample_rate, 16000);
        }
        _ => panic!("应为 Audio 变体"),
    }
}

#[test]
fn test_inference_input_multimodal() {
    let input = InferenceInput::MultiModal {
        parts: vec![
            ("text".to_string(), b"hello".to_vec()),
            ("image".to_string(), vec![0xFF, 0xD8]),
        ],
    };
    match input {
        InferenceInput::MultiModal { parts } => {
            assert_eq!(parts.len(), 2);
            assert_eq!(parts[0].0, "text");
            assert_eq!(parts[1].0, "image");
        }
        _ => panic!("应为 MultiModal 变体"),
    }
}

// ==================== ModelRequest 测试 ====================

#[test]
fn test_model_request_builder() {
    let request = ModelRequest::new(
        InferenceTask::TextGeneration,
        InferenceInput::Text("hello".to_string()),
    )
    .with_preference(InferencePreference::LocalOnly)
    .with_max_latency(1000)
    .with_privacy_level(PrivacyLevel::Sensitive)
    .with_budget_tokens(500);

    assert_eq!(request.preference, InferencePreference::LocalOnly);
    assert_eq!(request.max_latency_ms, Some(1000));
    assert_eq!(request.privacy_level, PrivacyLevel::Sensitive);
    assert_eq!(request.budget_tokens, Some(500));
}

#[test]
fn test_model_request_defaults() {
    let request = ModelRequest::new(
        InferenceTask::TextGeneration,
        InferenceInput::Text("hello".to_string()),
    );

    assert_eq!(request.preference, InferencePreference::Auto);
    assert_eq!(request.max_latency_ms, None);
    assert_eq!(request.privacy_level, PrivacyLevel::Public);
    assert_eq!(request.budget_tokens, None);
}

// ==================== InferenceResult 测试 ====================

#[test]
fn test_local_backend_repr() {
    assert_eq!(LocalBackend::Candle as u8, 0);
    assert_eq!(LocalBackend::OnnxRuntime as u8, 1);
    assert_eq!(LocalBackend::Tract as u8, 2);
}

// ==================== CloudProvider 测试 ====================

#[test]
fn test_cloud_provider_repr() {
    assert_eq!(CloudProvider::OpenAI as u8, 0);
    assert_eq!(CloudProvider::Anthropic as u8, 1);
    assert_eq!(CloudProvider::Google as u8, 2);
    assert_eq!(CloudProvider::Mistral as u8, 3);
    assert_eq!(CloudProvider::Azure as u8, 4);
    assert_eq!(CloudProvider::Custom as u8, 5);
}

#[test]
fn test_cloud_provider_hash() {
    let mut set = HashSet::new();
    set.insert(CloudProvider::OpenAI);
    set.insert(CloudProvider::Anthropic);
    set.insert(CloudProvider::OpenAI); // 重复
    assert_eq!(set.len(), 2);
}

// ==================== InferenceProvider 测试 ====================

#[test]
fn test_inference_provider_repr() {
    assert_eq!(InferenceProvider::Candle as u8, 0);
    assert_eq!(InferenceProvider::OnnxRuntime as u8, 1);
    assert_eq!(InferenceProvider::Tract as u8, 2);
    assert_eq!(InferenceProvider::OpenAI as u8, 3);
    assert_eq!(InferenceProvider::Anthropic as u8, 4);
    assert_eq!(InferenceProvider::Google as u8, 5);
}

// ==================== StreamChunk 测试 ====================

#[test]
fn test_stream_chunk_new() {
    let chunk = StreamChunk::new(0, "hello".to_string());
    assert_eq!(chunk.chunk_id, 0);
    assert_eq!(chunk.content, "hello");
    assert!(!chunk.is_final);
    assert_eq!(chunk.latency_ms, 0);
}

#[test]
fn test_stream_chunk_final() {
    let chunk = StreamChunk::final_chunk(5, "done".to_string());
    assert_eq!(chunk.chunk_id, 5);
    assert_eq!(chunk.content, "done");
    assert!(chunk.is_final);
}

#[test]
fn test_stream_chunk_with_latency() {
    let chunk = StreamChunk::new(0, "hello".to_string()).with_latency(42);
    assert_eq!(chunk.latency_ms, 42);
}

// ==================== LocalModelInfo 测试 ====================



#[test]
fn test_stream_session_new() {
    let session = StreamSession::new(1, ModelId::new("llama-7b"));
    assert_eq!(session.id, 1);
    assert_eq!(session.model_id.as_str(), "llama-7b");
    assert_eq!(session.chunk_count(), 0);
    assert!(!session.is_complete());
    assert_eq!(session.full_text(), "");
    assert_eq!(session.total_tokens, 0);
}

#[test]
fn test_stream_session_add_chunk() {
    let mut session = StreamSession::new(1, ModelId::new("llama-7b"));

    session.add_chunk(StreamChunk::new(0, "Hello ".to_string()));
    assert_eq!(session.chunk_count(), 1);
    assert_eq!(session.full_text(), "Hello ");
    assert!(!session.is_complete());

    session.add_chunk(StreamChunk::new(1, "world".to_string()));
    assert_eq!(session.chunk_count(), 2);
    assert_eq!(session.full_text(), "Hello world");
    assert!(!session.is_complete());
}

#[test]
fn test_stream_session_final_chunk() {
    let mut session = StreamSession::new(1, ModelId::new("llama-7b"));

    session.add_chunk(StreamChunk::new(0, "Hello ".to_string()));
    session.add_chunk(StreamChunk::final_chunk(1, "world".to_string()));

    assert_eq!(session.chunk_count(), 2);
    assert_eq!(session.full_text(), "Hello world");
    assert!(session.is_complete());
}

#[test]
fn test_stream_session_full_text_empty() {
    let session = StreamSession::new(1, ModelId::new("llama-7b"));
    assert_eq!(session.full_text(), "");
}

#[test]
fn test_stream_session_full_text_multiple_chunks() {
    let mut session = StreamSession::new(1, ModelId::new("llama-7b"));

    session.add_chunk(StreamChunk::new(0, "The ".to_string()));
    session.add_chunk(StreamChunk::new(1, "quick ".to_string()));
    session.add_chunk(StreamChunk::new(2, "brown ".to_string()));
    session.add_chunk(StreamChunk::final_chunk(3, "fox".to_string()));

    assert_eq!(session.full_text(), "The quick brown fox");
}

#[test]
fn test_stream_session_total_tokens() {
    let mut session = StreamSession::new(1, ModelId::new("llama-7b"));

    session.add_chunk(StreamChunk::new(0, "Hello".to_string()));
    assert_eq!(session.total_tokens, 5);

    session.add_chunk(StreamChunk::new(1, " world".to_string()));
    assert_eq!(session.total_tokens, 11);
}

#[test]
fn test_stream_session_last_chunk() {
    let mut session = StreamSession::new(1, ModelId::new("llama-7b"));

    assert!(session.last_chunk().is_none());

    session.add_chunk(StreamChunk::new(0, "Hello".to_string()));
    assert_eq!(session.last_chunk().unwrap().content, "Hello");

    session.add_chunk(StreamChunk::new(1, " world".to_string()));
    assert_eq!(session.last_chunk().unwrap().content, " world");
}

#[test]
fn test_stream_session_total_latency() {
    let mut session = StreamSession::new(1, ModelId::new("llama-7b"));

    session.add_chunk(StreamChunk::new(0, "Hello".to_string()).with_latency(10));
    session.add_chunk(StreamChunk::new(1, " world".to_string()).with_latency(15));

    assert_eq!(session.total_latency_ms(), 25);
}

#[test]
fn test_stream_session_with_timestamp() {
    let session = StreamSession::new_with_timestamp(1, ModelId::new("llama-7b"), 12345);
    assert_eq!(session.created_at, 12345);
}

#[test]
fn test_stream_manager_new() {
    let manager = StreamManager::new();
    assert_eq!(manager.active_sessions(), 0);
    assert_eq!(manager.total_sessions(), 0);
}

#[test]
fn test_stream_manager_create_session() {
    let mut manager = StreamManager::new();

    let id1 = manager.create_session(ModelId::new("llama-7b"));
    assert_eq!(id1, 1);
    assert_eq!(manager.active_sessions(), 1);

    let id2 = manager.create_session(ModelId::new("gpt-4"));
    assert_eq!(id2, 2);
    assert_eq!(manager.active_sessions(), 2);
}

#[test]
fn test_stream_manager_add_chunk() {
    let mut manager = StreamManager::new();
    let session_id = manager.create_session(ModelId::new("llama-7b"));

    let result = manager.add_chunk(
        session_id,
        StreamChunk::new(0, "Hello".to_string()),
    );
    assert!(result.is_ok());

    let session = manager.get_session(session_id).unwrap();
    assert_eq!(session.full_text(), "Hello");
}

#[test]
fn test_stream_manager_add_chunk_nonexistent() {
    let mut manager = StreamManager::new();

    let result = manager.add_chunk(
        999,
        StreamChunk::new(0, "Hello".to_string()),
    );
    assert!(result.is_err());
}

#[test]
fn test_stream_manager_add_chunk_to_completed_session() {
    let mut manager = StreamManager::new();
    let session_id = manager.create_session(ModelId::new("llama-7b"));

    // 完成会话
    manager.complete_session(session_id).unwrap();

    // 尝试向已完成的会话添加块
    let result = manager.add_chunk(
        session_id,
        StreamChunk::new(0, "Hello".to_string()),
    );
    assert!(result.is_err());
}

#[test]
fn test_stream_manager_get_session() {
    let mut manager = StreamManager::new();
    let session_id = manager.create_session(ModelId::new("llama-7b"));

    let session = manager.get_session(session_id);
    assert!(session.is_some());
    assert_eq!(session.unwrap().model_id.as_str(), "llama-7b");

    assert!(manager.get_session(999).is_none());
}

#[test]
fn test_stream_manager_complete_session() {
    let mut manager = StreamManager::new();
    let session_id = manager.create_session(ModelId::new("llama-7b"));

    manager.complete_session(session_id).unwrap();

    let session = manager.get_session(session_id).unwrap();
    assert!(session.is_complete());
    assert_eq!(manager.active_sessions(), 0);
}

#[test]
fn test_stream_manager_complete_nonexistent() {
    let mut manager = StreamManager::new();
    let result = manager.complete_session(999);
    assert!(result.is_err());
}

#[test]
fn test_stream_manager_cancel_session() {
    let mut manager = StreamManager::new();
    let session_id = manager.create_session(ModelId::new("llama-7b"));

    assert_eq!(manager.total_sessions(), 1);
    manager.cancel_session(session_id);
    assert_eq!(manager.total_sessions(), 0);
    assert!(manager.get_session(session_id).is_none());
}

#[test]
fn test_stream_manager_cancel_nonexistent() {
    let mut manager = StreamManager::new();
    // 取消不存在的会话不应 panic
    manager.cancel_session(999);
    assert_eq!(manager.total_sessions(), 0);
}

#[test]
fn test_stream_manager_active_sessions() {
    let mut manager = StreamManager::new();

    let id1 = manager.create_session(ModelId::new("llama-7b"));
    let id2 = manager.create_session(ModelId::new("gpt-4"));
    let _id3 = manager.create_session(ModelId::new("mistral-7b"));

    assert_eq!(manager.active_sessions(), 3);

    // 完成一个会话
    manager.complete_session(id1).unwrap();
    assert_eq!(manager.active_sessions(), 2);

    // 取消一个会话
    manager.cancel_session(id2);
    assert_eq!(manager.active_sessions(), 1);
}

#[test]
fn test_stream_manager_cleanup_completed() {
    let mut manager = StreamManager::new();

    let id1 = manager.create_session(ModelId::new("llama-7b"));
    let id2 = manager.create_session(ModelId::new("gpt-4"));
    let _id3 = manager.create_session(ModelId::new("mistral-7b"));

    manager.complete_session(id1).unwrap();
    manager.complete_session(id2).unwrap();

    let removed = manager.cleanup_completed();
    assert_eq!(removed, 2);
    assert_eq!(manager.total_sessions(), 1);
}

#[test]
fn test_stream_manager_active_session_ids() {
    let mut manager = StreamManager::new();

    let id1 = manager.create_session(ModelId::new("llama-7b"));
    let id2 = manager.create_session(ModelId::new("gpt-4"));

    manager.complete_session(id1).unwrap();

    let active_ids = manager.active_session_ids();
    assert_eq!(active_ids.len(), 1);
    assert!(active_ids.contains(&id2));
    assert!(!active_ids.contains(&id1));
}

#[test]
fn test_stream_manager_full_workflow() {
    let mut manager = StreamManager::new();

    // 创建会话
    let session_id = manager.create_session(ModelId::new("llama-7b"));
    assert_eq!(manager.active_sessions(), 1);

    // 添加多个块
    manager
        .add_chunk(session_id, StreamChunk::new(0, "Hello ".to_string()).with_latency(5))
        .unwrap();
    manager
        .add_chunk(session_id, StreamChunk::new(1, "from ".to_string()).with_latency(3))
        .unwrap();
    manager
        .add_chunk(
            session_id,
            StreamChunk::final_chunk(2, "LLaMA".to_string()).with_latency(8),
        )
        .unwrap();

    // 验证结果
    let session = manager.get_session(session_id).unwrap();
    assert_eq!(session.full_text(), "Hello from LLaMA");
    assert_eq!(session.chunk_count(), 3);
    assert!(session.is_complete());
    assert_eq!(session.total_latency_ms(), 16);
    assert_eq!(manager.active_sessions(), 0);
}

#[test]
fn test_stream_manager_default() {
    let manager = StreamManager::default();
    assert_eq!(manager.active_sessions(), 0);
}


// ---- further cases ----

#[test]
fn test_inference_error_messages_exact() {
    let err = InferenceError::UnsupportedTask(InferenceTask::Translation { from: "en".to_string(), to: "zh".to_string() });
    assert_eq!(err.message(), "不支持的任务类型: Translation { from: \"en\", to: \"zh\" }");
    let err = InferenceError::UnsupportedTask(InferenceTask::ImageGeneration);
    assert_eq!(err.message(), "不支持的任务类型: ImageGeneration");
    let err = InferenceError::ApiError { provider: CloudProvider::Mistral, message: "坏了".to_string() };
    assert_eq!(err.message(), "API 错误 (Mistral): 坏了");
    let err = InferenceError::RateLimited { provider: CloudProvider::Azure, retry_after_ms: 7 };
    assert_eq!(err.message(), "速率限制 (Azure), 7ms 后重试");
    let err = InferenceError::OutOfMemory { required: 4096, available: 0 };
    assert_eq!(err.message(), "内存不足: 需要 4096 字节, 可用 0 字节");
    let err = InferenceError::ContextTooLarge { tokens: 10, max_tokens: 9 };
    assert_eq!(err.message(), "上下文过长: 10 tokens 超过最大限制 9 tokens");
}

#[test]
fn test_stream_tokens_count_bytes() {
    let mut session = StreamSession::new(3, ModelId::new("m"));
    session.add_chunk(StreamChunk::new(0, "你好".to_string()));
    assert_eq!(session.total_tokens, 6);
    assert_eq!(session.full_text(), "你好");
}

#[test]
fn test_stream_manager_errors_and_order() {
    let mut manager = StreamManager::new();
    let a = manager.create_session(ModelId::new("a"));
    let b = manager.create_session(ModelId::new("b"));
    let c = manager.create_session(ModelId::new("c"));
    assert_eq!(
        manager.add_chunk(42, StreamChunk::new(0, "x".to_string())),
        Err(InferenceError::ModelNotFound("会话 42 不存在".to_string()))
    );
    manager.add_chunk(b, StreamChunk::final_chunk(0, "done".to_string())).unwrap();
    assert_eq!(
        manager.add_chunk(b, StreamChunk::new(1, "more".to_string())),
        Err(InferenceError::InferenceFailed(format!("会话 {} 已完成，无法添加新块", b)))
    );
    assert_eq!(manager.complete_session(42), Err(InferenceError::ModelNotFound("会话 42 不存在".to_string())));
    assert_eq!(manager.active_session_ids(), vec![a, c]);
    manager.cancel_session(a);
    assert_eq!(manager.active_session_ids(), vec![c]);
    assert_eq!(manager.total_sessions(), 2);
    assert_eq!(manager.cleanup_completed(), 1);
    assert_eq!(manager.total_sessions(), 1);
    assert_eq!(manager.get_session(c).unwrap().model_id.as_str(), "c");
    let d = manager.create_session(ModelId::new("d"));
    assert_eq!(d, 4);
}

#[test]
fn test_token_usage_wraps_past_max() {
    let usage = TokenUsage::new(u32::MAX, u32::MAX);
    assert_eq!(usage.total_tokens, u32::MAX - 1);
}

fn slot(name: &str, provider: InferenceProvider, available: bool) -> EngineSlot {
    EngineSlot { name: name.to_string(), provider, available }
}

#[test]
fn engine_choice_follows_decision() {
    let engines = vec![
        slot("onnx-off", InferenceProvider::OnnxRuntime, false),
        slot("onnx", InferenceProvider::OnnxRuntime, true),
        slot("anthropic-engine", InferenceProvider::Anthropic, true),
    ];
    let local = RoutingDecision::LocalOnnx { model_id: ModelId("m".to_string()) };
    assert_eq!(engine_for_decision(&local, &engines), Ok("onnx".to_string()));
    let candle = RoutingDecision::LocalCandle { model_id: ModelId("m2".to_string()) };
    assert_eq!(engine_for_decision(&candle, &engines), Err(InferenceError::ModelNotFound("m2".to_string())));
    let mistral = RoutingDecision::Cloud { provider: CloudProvider::Mistral, model_id: ModelId("x".to_string()) };
    assert_eq!(engine_for_decision(&mistral, &engines), Err(InferenceError::ModelNotFound("x".to_string())));
    let fallback = RoutingDecision::Fallback { primary: Box::new(candle), fallback: Box::new(RoutingDecision::Cloud {
        provider: CloudProvider::Anthropic,
        model_id: ModelId("y".to_string()),
    }) };
    assert_eq!(engine_for_decision(&fallback, &engines), Ok("anthropic-engine".to_string()));
}
