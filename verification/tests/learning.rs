use lib::learning::{MemoryType, LearningStrategy, LearningError, KnowledgeGraph, KnowledgeTriple, MemoryEntry, MemoryStore, LearningEngine, LearningSession};
use lib::textmap::TextMap;

#[test]
fn test_memory_type_repr() {
    assert_eq!(MemoryType::ShortTerm as u8, 0);
    assert_eq!(MemoryType::LongTerm as u8, 1);
    assert_eq!(MemoryType::Working as u8, 2);
    assert_eq!(MemoryType::Episodic as u8, 3);
    assert_eq!(MemoryType::Semantic as u8, 4);
}

#[test]
fn test_learning_strategy_repr() {
    assert_eq!(LearningStrategy::Reinforcement as u8, 0);
    assert_eq!(LearningStrategy::Imitation as u8, 1);
    assert_eq!(LearningStrategy::SelfSupervised as u8, 2);
    assert_eq!(LearningStrategy::Federated as u8, 3);
    assert_eq!(LearningStrategy::Evolutionary as u8, 4);
    assert_eq!(LearningStrategy::MemoryReplay as u8, 5);
}

#[test]
fn test_learning_error_equality() {
    assert_eq!(LearningError::SessionNotFound("a".to_string()), LearningError::SessionNotFound("a".to_string()));
    assert_ne!(LearningError::SessionNotFound("a".to_string()), LearningError::SessionNotActive("a".to_string()));
}

/// Confidence, source and creation time of a fact.
type Info = (f32, String, u64);

fn triple(subject: &str, predicate: &str, object: &str, confidence: f32, source: &str, created_at: u64) -> KnowledgeTriple<Info> {
    KnowledgeTriple {
        subject: subject.to_string(),
        predicate: predicate.to_string(),
        object: object.to_string(),
        detail: (confidence, source.to_string(), created_at),
    }
}

#[test]
fn test_knowledge_graph_new() {
    let graph: KnowledgeGraph<Info> = KnowledgeGraph::new();
    assert_eq!(graph.triple_count(), 0);
    assert_eq!(graph.entity_count(), 0);
}

#[test]
fn test_knowledge_graph_add_triple() {
    let mut graph = KnowledgeGraph::new();
    graph.add_triple(triple("Rust", "是一种", "编程语言", 0.95, "文档", 1000));
    assert_eq!(graph.triple_count(), 1);
    assert_eq!(graph.entity_count(), 2);
}

#[test]
fn test_knowledge_graph_query_subject() {
    let mut graph = KnowledgeGraph::new();
    graph.add_triple(triple("Rust", "是一种", "编程语言", 0.95, "文档", 1000));
    graph.add_triple(triple("Rust", "由", "Mozilla", 0.9, "文档", 1000));
    let results = graph.query_subject("Rust");
    assert_eq!(results.len(), 2);
}

#[test]
fn test_knowledge_graph_query_object() {
    let mut graph = KnowledgeGraph::new();
    graph.add_triple(triple("Rust", "是一种", "编程语言", 0.95, "文档", 1000));
    graph.add_triple(triple("Python", "是一种", "编程语言", 0.95, "文档", 1000));
    let results = graph.query_object("编程语言");
    assert_eq!(results.len(), 2);
}

#[test]
fn test_knowledge_graph_query_predicate() {
    let mut graph = KnowledgeGraph::new();
    graph.add_triple(triple("Rust", "是一种", "编程语言", 0.95, "文档", 1000));
    graph.add_triple(triple("Python", "是一种", "编程语言", 0.95, "文档", 1000));
    graph.add_triple(triple("Rust", "由", "Mozilla", 0.9, "文档", 1000));
    let results = graph.query_predicate("是一种");
    assert_eq!(results.len(), 2);
    let results = graph.query_predicate("由");
    assert_eq!(results.len(), 1);
}

#[test]
fn test_knowledge_graph_related_entities() {
    let mut graph = KnowledgeGraph::new();
    graph.add_triple(triple("Rust", "是一种", "编程语言", 0.95, "文档", 1000));
    graph.add_triple(triple("Rust", "由", "Mozilla", 0.9, "文档", 1000));
    let related = graph.related_entities("Rust");
    assert!(related.contains(&"编程语言".to_string()));
    assert!(related.contains(&"Mozilla".to_string()));
    assert!(!related.contains(&"Rust".to_string()));
    assert_eq!(related.len(), 2);
}

#[test]
fn test_knowledge_graph_merge() {
    let mut graph1 = KnowledgeGraph::new();
    let mut graph2 = KnowledgeGraph::new();
    graph1.add_triple(triple("Rust", "是一种", "编程语言", 0.95, "文档", 1000));
    graph2.add_triple(triple("Python", "是一种", "编程语言", 0.95, "文档", 1000));
    graph2.add_triple(triple("Rust", "是一种", "编程语言", 0.95, "文档", 1000));
    assert_eq!(graph1.triple_count(), 1);
    graph1.merge(&graph2);
    assert_eq!(graph1.triple_count(), 2);
}

#[test]
fn test_knowledge_graph_query_path() {
    let mut graph = KnowledgeGraph::new();
    graph.add_triple(triple("Rust", "是一种", "编程语言", 0.95, "文档", 1000));
    graph.add_triple(triple("Rust", "由", "Mozilla", 0.9, "文档", 1000));
    graph.add_triple(triple("Mozilla", "是一个", "组织", 0.9, "文档", 1000));
    let paths = graph.query_path("Rust", "编程语言");
    assert_eq!(paths.len(), 1);
    assert_eq!(paths[0].len(), 1);
    let paths = graph.query_path("Rust", "组织");
    assert_eq!(paths.len(), 1);
    assert_eq!(paths[0].len(), 2);
    let paths = graph.query_path("Rust", "不存在的实体");
    assert_eq!(paths.len(), 0);
}

#[test]
fn knowledge_index_files_facts_under_both_ends() {
    let mut graph = KnowledgeGraph::new();
    graph.add_triple(triple("A", "p", "B", 1.0, "s", 1));
    graph.add_triple(triple("B", "q", "C", 1.0, "s", 2));
    graph.add_triple(triple("C", "r", "C", 1.0, "s", 3));
    // facts mentioning B as subject or object, in order
    let b: Vec<&str> = graph.query_subject("B").iter().map(|t| t.predicate.as_str()).collect();
    assert_eq!(b, vec!["p", "q"]);
    // a fact naming C twice is filed twice
    let c: Vec<&str> = graph.query_object("C").iter().map(|t| t.predicate.as_str()).collect();
    assert_eq!(c, vec!["q", "r", "r"]);
    assert_eq!(graph.entity_count(), 3);
    assert_eq!(graph.related_entities("C"), vec!["B".to_string()]);
}

#[test]
fn knowledge_two_hop_paths_in_order() {
    let mut graph = KnowledgeGraph::new();
    graph.add_triple(triple("A", "p", "B", 1.0, "s", 1));
    graph.add_triple(triple("A", "q", "D", 1.0, "s", 2));
    graph.add_triple(triple("B", "r", "T", 1.0, "s", 3));
    graph.add_triple(triple("D", "s", "T", 1.0, "s", 4));
    graph.add_triple(triple("A", "t", "T", 1.0, "s", 5));
    let paths: Vec<Vec<&str>> = graph
        .query_path("A", "T")
        .iter()
        .map(|p| p.iter().map(|t| t.predicate.as_str()).collect())
        .collect();
    assert_eq!(paths, vec![vec!["p", "r"], vec!["q", "s"], vec!["t"]]);
}

#[test]
fn knowledge_merge_twice_adds_nothing() {
    let mut graph1 = KnowledgeGraph::new();
    let mut graph2 = KnowledgeGraph::new();
    graph2.add_triple(triple("X", "p", "Y", 0.5, "a", 1));
    graph2.add_triple(triple("X", "p", "Y", 0.7, "b", 2));
    graph1.merge(&graph2);
    assert_eq!(graph1.triple_count(), 1);
    assert_eq!(graph1.query_subject("X")[0].detail.1, "a");
    graph1.merge(&graph2);
    assert_eq!(graph1.triple_count(), 1);
}

/// A memory's importance and embedding.
type Scores = (f32, Option<Vec<f32>>);

fn memory(
    memory_type: MemoryType,
    content: &str,
    importance: f32,
    expires_at: Option<u64>,
    tags: &[&str],
) -> MemoryEntry<Scores> {
    MemoryEntry {
        id: 0,
        memory_type,
        content: content.to_string(),
        access_count: 0,
        created_at: 100,
        last_accessed: 100,
        expires_at,
        tags: tags.iter().map(|t| t.to_string()).collect(),
        metadata: TextMap::new(),
        scores: (importance, None),
    }
}

#[test]
fn test_memory_entry_creation() {
    let entry = MemoryEntry {
        id: 1,
        memory_type: MemoryType::ShortTerm,
        content: "测试记忆内容".to_string(),
        access_count: 0,
        created_at: 1000,
        last_accessed: 1000,
        expires_at: None,
        tags: vec!["测试".to_string()],
        metadata: TextMap::new(),
        scores: (0.8f32, None::<Vec<f32>>),
    };
    assert_eq!(entry.id, 1);
    assert_eq!(entry.memory_type, MemoryType::ShortTerm);
    assert_eq!(entry.content, "测试记忆内容");
    assert_eq!(entry.scores.0, 0.8);
    assert!(entry.scores.1.is_none());
    assert!(entry.expires_at.is_none());
}

#[test]
fn test_memory_entry_with_embedding() {
    let entry = MemoryEntry {
        id: 2,
        memory_type: MemoryType::LongTerm,
        content: "带嵌入向量的记忆".to_string(),
        access_count: 5,
        created_at: 2000,
        last_accessed: 3000,
        expires_at: Some(5000),
        tags: vec!["向量".to_string(), "重要".to_string()],
        metadata: TextMap::new(),
        scores: (0.9f32, Some(vec![0.1f32, 0.2, 0.3])),
    };
    assert_eq!(entry.memory_type, MemoryType::LongTerm);
    assert_eq!(entry.scores.1.as_ref().unwrap().len(), 3);
    assert_eq!(entry.access_count, 5);
    assert_eq!(entry.expires_at, Some(5000));
}

#[test]
fn test_memory_store_new() {
    let store: MemoryStore<Scores> = MemoryStore::new();
    assert_eq!(store.len(), 0);
}

#[test]
fn test_memory_store_store_and_retrieve() {
    let mut store = MemoryStore::new();
    let id = store.store(memory(MemoryType::ShortTerm, "存储测试", 0.5, None, &[]));
    assert_eq!(id, 1);
    let retrieved = store.retrieve(id).unwrap();
    assert_eq!(retrieved.content, "存储测试");
    assert_eq!(retrieved.memory_type, MemoryType::ShortTerm);
}

#[test]
fn test_memory_store_retrieve_nonexistent() {
    let store: MemoryStore<Scores> = MemoryStore::new();
    assert!(store.retrieve(999).is_none());
}

#[test]
fn test_memory_store_search_by_tags() {
    let mut store = MemoryStore::new();
    store.store(memory(MemoryType::Semantic, "Rust 是一门编程语言", 0.9, None, &["编程", "Rust"]));
    store.store(memory(MemoryType::Semantic, "Python 也是一种编程语言", 0.8, None, &["编程", "Python"]));
    store.store(memory(MemoryType::Semantic, "苹果是一种水果", 0.3, None, &["水果"]));
    let results = store.search_by_tags(&["编程", "Rust"]);
    assert_eq!(results.len(), 1);
    assert_eq!(results[0].content, "Rust 是一门编程语言");
    let results = store.search_by_tags(&["编程"]);
    assert_eq!(results.len(), 2);
}

#[test]
fn test_memory_store_search_by_keyword() {
    let mut store = MemoryStore::new();
    store.store(memory(MemoryType::Semantic, "Rust 是一门系统编程语言", 0.9, None, &[]));
    store.store(memory(MemoryType::Semantic, "学习 Rust 编程很有趣", 0.7, None, &[]));
    store.store(memory(MemoryType::Semantic, "Python 也很好", 0.5, None, &[]));
    let results = store.search_by_keyword("rust");
    assert_eq!(results.len(), 2);
    let results = store.search_by_keyword("Python");
    assert_eq!(results.len(), 1);
}

#[test]
fn test_memory_store_delete() {
    let mut store = MemoryStore::new();
    let id = store.store(memory(MemoryType::ShortTerm, "待删除", 0.5, None, &[]));
    assert!(store.retrieve(id).is_some());
    assert!(store.delete(id));
    assert!(store.retrieve(id).is_none());
    assert!(!store.delete(id));
}

#[test]
fn test_memory_store_consolidate() {
    let mut store = MemoryStore::new();
    let id1 = store.store(memory(MemoryType::ShortTerm, "重要记忆", 0.9, None, &[]));
    let id2 = store.store(memory(MemoryType::ShortTerm, "不重要记忆", 0.2, None, &[]));
    assert_eq!(store.short_term_count(), 2);
    assert_eq!(store.long_term_count(), 0);
    // the memories of importance at least 0.5
    let important: Vec<u64> = store.entries().iter().filter(|e| e.scores.0 >= 0.5).map(|e| e.id).collect();
    let consolidated = store.consolidate(&important);
    assert_eq!(consolidated, 1);
    assert_eq!(store.short_term_count(), 1);
    assert_eq!(store.long_term_count(), 1);
    assert_eq!(store.retrieve(id1).unwrap().memory_type, MemoryType::LongTerm);
    assert_eq!(store.retrieve(id2).unwrap().memory_type, MemoryType::ShortTerm);
}

#[test]
fn test_memory_store_cleanup_expired() {
    let mut store = MemoryStore::new();
    store.store(memory(MemoryType::ShortTerm, "已过期", 0.5, Some(500), &[]));
    store.store(memory(MemoryType::ShortTerm, "未过期", 0.5, Some(1500), &[]));
    store.store(memory(MemoryType::ShortTerm, "永不过期", 0.5, None, &[]));
    assert_eq!(store.len(), 3);
    let cleaned = store.cleanup_expired(1000);
    assert_eq!(cleaned, 1);
    assert_eq!(store.len(), 2);
}

#[test]
fn test_memory_store_stats() {
    let mut store = MemoryStore::new();
    store.store(memory(MemoryType::ShortTerm, "短期1", 0.3, None, &[]));
    store.store(memory(MemoryType::ShortTerm, "短期2", 0.7, None, &[]));
    store.store(memory(MemoryType::LongTerm, "长期1", 0.5, None, &[]));
    assert_eq!(store.len(), 3);
    assert_eq!(store.short_term_count(), 2);
    assert_eq!(store.long_term_count(), 1);
    let total_importance: f32 = store.entries().iter().map(|e| e.scores.0).sum();
    assert!((total_importance - 1.5).abs() < 0.001);
    assert!((total_importance / store.len() as f32 - 0.5).abs() < 0.001);
}

#[test]
fn memory_ids_count_up_and_lists_follow_types() {
    let mut store = MemoryStore::new();
    assert_eq!(store.store(memory(MemoryType::ShortTerm, "a", 0.1, None, &[])), 1);
    assert_eq!(store.store(memory(MemoryType::Working, "b", 0.1, None, &[])), 2);
    assert_eq!(store.store(memory(MemoryType::LongTerm, "c", 0.1, None, &[])), 3);
    assert_eq!(store.short_term_count(), 1);
    assert_eq!(store.long_term_count(), 1);
    assert_eq!(store.retrieve(2).unwrap().id, 2);
    assert!(store.delete(1));
    assert_eq!(store.short_term_count(), 0);
    assert!(store.delete(3));
    assert_eq!(store.long_term_count(), 0);
    assert_eq!(store.len(), 1);
}

#[test]
fn memory_keyword_search_ignores_case_and_empty_keyword_matches_all() {
    let mut store = MemoryStore::new();
    store.store(memory(MemoryType::Semantic, "HELLO World", 0.1, None, &[]));
    store.store(memory(MemoryType::Semantic, "goodbye", 0.1, None, &[]));
    assert_eq!(store.search_by_keyword("wORLD").len(), 1);
    assert_eq!(store.search_by_keyword("").len(), 2);
    assert_eq!(store.search_by_keyword("xyz").len(), 0);
}

#[test]
fn memory_cleanup_drops_expired_ids_from_lists() {
    let mut store = MemoryStore::new();
    store.store(memory(MemoryType::ShortTerm, "a", 0.1, Some(10), &[]));
    store.store(memory(MemoryType::LongTerm, "b", 0.1, Some(10), &[]));
    store.store(memory(MemoryType::ShortTerm, "c", 0.1, Some(20), &[]));
    assert_eq!(store.cleanup_expired(10), 2);
    assert_eq!(store.short_term_count(), 1);
    assert_eq!(store.long_term_count(), 0);
    assert!(store.retrieve(3).is_some());
    // an unlisted id does not consolidate
    assert_eq!(store.consolidate(&[1, 2]), 0);
    assert_eq!(store.consolidate(&[3]), 1);
    assert_eq!(store.long_term_count(), 1);
}

/// A configuration with the accuracy a session aims at.
#[derive(Clone, Debug)]
struct Config {
    target_accuracy: f32,
}

/// One round of a session's metrics.
#[derive(Clone, Debug)]
struct Metrics {
    epoch: u32,
    loss: f32,
    accuracy: f32,
    reward: f32,
    steps: u64,
    episodes: u32,
}

type Engine = LearningEngine<Config, Metrics, Scores, Info>;

fn metrics(epoch: u32, loss: f32, accuracy: f32, reward: f32, steps: u64, episodes: u32) -> Metrics {
    Metrics { epoch, loss, accuracy, reward, steps, episodes }
}

fn default_config() -> Config {
    Config { target_accuracy: 0.95 }
}

#[test]
fn test_learning_session_new() {
    let session: LearningSession<Config, Metrics> = LearningSession::new("test-session", default_config());
    assert_eq!(session.id, "test-session");
    assert!(session.is_active);
    assert!(session.latest_metrics().is_none());
    assert!(session.metrics_history.is_empty());
}

#[test]
fn test_learning_session_record_metrics() {
    let mut session = LearningSession::new("test-session", default_config());
    session.record_metrics(metrics(1, 0.5, 0.8, 1.0, 100, 1));
    session.record_metrics(metrics(2, 0.3, 0.9, 2.0, 200, 2));
    assert_eq!(session.metrics_history.len(), 2);
}

#[test]
fn test_learning_session_latest_metrics() {
    let mut session = LearningSession::new("test-session", default_config());
    assert!(session.latest_metrics().is_none());
    session.record_metrics(metrics(1, 0.5, 0.8, 1.0, 100, 1));
    session.record_metrics(metrics(2, 0.3, 0.9, 2.0, 200, 2));
    let latest = session.latest_metrics().unwrap();
    assert_eq!(latest.epoch, 2);
    assert!((latest.accuracy - 0.9).abs() < 1e-6);
    assert_eq!(latest.steps, 200);
    assert_eq!(latest.episodes, 2);
    assert!((latest.loss - 0.3).abs() < 1e-6);
    assert!((latest.reward - 2.0).abs() < 1e-6);
}

#[test]
fn test_learning_session_stop() {
    let mut session: LearningSession<Config, Metrics> = LearningSession::new("test-session", default_config());
    assert!(session.is_active);
    session.stop();
    assert!(!session.is_active);
    assert!((session.config.target_accuracy - 0.95).abs() < 1e-6);
}

#[test]
fn test_learning_engine_new() {
    let engine: Engine = LearningEngine::new();
    assert_eq!(engine.list_sessions().len(), 0);
}

#[test]
fn test_learning_engine_create_session() {
    let mut engine: Engine = LearningEngine::new();
    let config = default_config();
    assert!(engine.create_session("session-1", config.clone()).is_ok());
    assert_eq!(engine.list_sessions().len(), 1);
    let result = engine.create_session("session-1", config);
    assert!(matches!(result, Err(LearningError::SessionAlreadyExists(_))));
}

#[test]
fn test_learning_engine_record_metrics() {
    let mut engine: Engine = LearningEngine::new();
    engine.create_session("session-1", default_config()).unwrap();
    let m = metrics(1, 0.5, 0.8, 1.0, 100, 1);
    assert!(engine.record_metrics("session-1", m.clone()).is_ok());
    let result = engine.record_metrics("nonexistent", m);
    assert!(matches!(result, Err(LearningError::SessionNotFound(_))));
}

#[test]
fn test_learning_engine_session_status() {
    let mut engine: Engine = LearningEngine::new();
    engine.create_session("session-1", default_config()).unwrap();
    let status = engine.session_status("session-1").unwrap();
    assert_eq!(status.id, "session-1");
    assert!(status.is_active);
    let result = engine.session_status("nonexistent");
    assert!(matches!(result, Err(LearningError::SessionNotFound(_))));
}

#[test]
fn test_learning_engine_stop_session() {
    let mut engine: Engine = LearningEngine::new();
    engine.create_session("session-1", default_config()).unwrap();
    assert!(engine.session_status("session-1").unwrap().is_active);
    engine.stop_session("session-1").unwrap();
    assert!(!engine.session_status("session-1").unwrap().is_active);
    let result = engine.stop_session("nonexistent");
    assert!(matches!(result, Err(LearningError::SessionNotFound(_))));
}

#[test]
fn test_learning_engine_record_metrics_inactive_session() {
    let mut engine: Engine = LearningEngine::new();
    engine.create_session("session-1", default_config()).unwrap();
    engine.stop_session("session-1").unwrap();
    let result = engine.record_metrics("session-1", metrics(1, 0.5, 0.8, 1.0, 100, 1));
    assert!(matches!(result, Err(LearningError::SessionNotActive(_))));
}

#[test]
fn test_learning_engine_memory_access() {
    let mut engine: Engine = LearningEngine::new();
    let id = engine.memory_mut().store(memory(MemoryType::ShortTerm, "通过引擎访问记忆", 0.7, None, &[]));
    assert!(engine.memory().retrieve(id).is_some());
}

#[test]
fn test_learning_engine_knowledge_access() {
    let mut engine: Engine = LearningEngine::new();
    engine.knowledge_mut().add_triple(triple("Agent", "使用", "学习引擎", 0.9, "测试", 1000));
    assert_eq!(engine.knowledge().triple_count(), 1);
    assert_eq!(engine.knowledge().entity_count(), 2);
}

#[test]
fn test_learning_engine_list_sessions() {
    let mut engine: Engine = LearningEngine::new();
    let config = default_config();
    engine.create_session("s1", config.clone()).unwrap();
    engine.create_session("s2", config.clone()).unwrap();
    engine.create_session("s3", config).unwrap();
    let sessions = engine.list_sessions();
    assert_eq!(sessions.len(), 3);
    assert_eq!(sessions, vec!["s1".to_string(), "s2".to_string(), "s3".to_string()]);
}

#[test]
fn engine_errors_name_the_session() {
    let mut engine: Engine = LearningEngine::new();
    engine.create_session("a", default_config()).unwrap();
    match engine.create_session("a", default_config()) {
        Err(LearningError::SessionAlreadyExists(s)) => assert_eq!(s, "a"),
        other => panic!("unexpected {:?}", other.is_ok()),
    }
    engine.stop_session("a").unwrap();
    match engine.record_metrics("a", metrics(1, 0.0, 0.0, 0.0, 0, 0)) {
        Err(LearningError::SessionNotActive(s)) => assert_eq!(s, "a"),
        other => panic!("unexpected {:?}", other.is_ok()),
    }
    assert_eq!(engine.session_status("a").unwrap().metrics_history.len(), 0);
}
