//! The vocabulary of agent learning: errors, kinds of memory and learning
//! strategies.
use vstd::prelude::*;

mod engine;
mod knowledge;
pub use engine::{LearningEngine, LearningSession, session_entries, law_stopped_session_refuses};
mod memory_store;
pub use memory_store::{
    MemoryEntry, MemoryStore, entry_pairs, has_all_tags, tagged, with_keyword, ids_without, ids_not_in, to_consolidate,
    expired, unexpired, expired_ids, law_store_retrieve_delete, law_consolidate_keeps_count, law_cleanup_partitions,
};
pub use knowledge::{
    KnowledgeGraph, KnowledgeTriple, entity_positions, entity_set, merge_appends, path_positions, paths_through,
    related_set, second_hops, triple_key, row_matches, path_rows, merged_keys, law_merge_covers,
    law_merge_no_duplicates, law_merge_again_adds_nothing,
};

verus! {

/// An error of the learning service.
#[derive(Debug, Clone, PartialEq, Eq)]
pub enum LearningError {
    SessionNotFound(String),
    SessionAlreadyExists(String),
    SessionNotActive(String),
    InvalidConfig(String),
    MemoryError(String),
    KnowledgeError(String),
}

/// The kind of a memory.
#[derive(Debug, Clone, Copy, PartialEq, Eq, Structural)]
pub enum MemoryType {
    ShortTerm,
    LongTerm,
    Working,
    Episodic,
    Semantic,
}

/// How an agent learns.
#[derive(Debug, Clone, Copy, PartialEq, Eq, Structural)]
pub enum LearningStrategy {
    Reinforcement,
    Imitation,
    SelfSupervised,
    Federated,
    Evolutionary,
    MemoryReplay,
}

} // verus!
