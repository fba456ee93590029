use engram_mcp::memory::{
    apply_global_weakening_if_first_time, decay, forget_document, get_unknown_memory_id,
    memory_ids_rejection, prune_deletable_memories, recall_memories, reinforce,
    reinforce_document, reinforce_memories, remember_memory, remember_rejection, should_delete,
    MemoryChangeResult, RetentionCycle, RetentionTier,
};
use engram_mcp::memory_store::{MemoryError, PersistedMemory, PersistedMemoryDocument};

fn memory(id: &str, text: &str, retention_tenths: u32) -> PersistedMemory {
    PersistedMemory {
        id: id.to_string(),
        text: text.to_string(),
        retention_tenths,
    }
}

fn ids(values: &[&str]) -> Vec<String> {
    values.iter().map(|value| value.to_string()).collect()
}

#[test]
fn recall_prunes_deleteable_memories_without_decay() {
    let mut document = PersistedMemoryDocument {
        memories: vec![memory("a", "keep", 100), memory("b", "drop", 9)],
    };
    let mut cycle = RetentionCycle::new();

    let changed = prune_deletable_memories(&mut document);
    cycle.reset();
    let stored = PersistedMemoryDocument {
        memories: document
            .memories
            .iter()
            .map(|m| memory(&m.id, &m.text, m.retention_tenths))
            .collect(),
    };
    let memories = recall_memories(document);

    assert!(changed);
    assert_eq!(memories.len(), 1);
    assert_eq!(memories[0].id, "a");
    assert_eq!(memories[0].text, "keep");
    assert_eq!(stored.memories.len(), 1);
    assert_eq!(stored.memories[0].retention_tenths, 100);
}

#[test]
fn prune_reports_no_change_when_nothing_faded() {
    let mut document = PersistedMemoryDocument {
        memories: vec![memory("a", "keep", 10), memory("b", "also", 1500)],
    };

    assert!(!prune_deletable_memories(&mut document));
    assert_eq!(document.memories.len(), 2);
}

#[test]
fn recall_lists_strongest_first_and_keeps_order_of_equals() {
    let document = PersistedMemoryDocument {
        memories: vec![
            memory("low", "l", 10),
            memory("tie-1", "t1", 50),
            memory("high", "h", 990),
            memory("tie-2", "t2", 50),
        ],
    };

    let memories = recall_memories(document);
    let order: Vec<&str> = memories.iter().map(|m| m.id.as_str()).collect();

    assert_eq!(order, vec!["high", "tie-1", "tie-2", "low"]);
}

#[test]
fn remember_creates_memory_with_tier_specific_initial_retention() {
    let mut document = PersistedMemoryDocument::empty();

    assert!(remember_rejection("Remember this").is_none());
    remember_memory(
        &mut document,
        RetentionTier::Medium,
        "Remember this",
        "id-1".to_string(),
    )
    .unwrap();

    let result = MemoryChangeResult::success();
    assert!(result.succeeded());
    assert_eq!(result.rejection, None);
    assert_eq!(document.memories.len(), 1);
    assert_eq!(document.memories[0].text, "Remember this");
    assert_eq!(document.memories[0].retention_tenths, 250);
}

#[test]
fn remember_uses_each_tier_retention() {
    let mut document = PersistedMemoryDocument::empty();
    remember_memory(&mut document, RetentionTier::Short, "s", "1".to_string()).unwrap();
    remember_memory(&mut document, RetentionTier::Long, "l", "2".to_string()).unwrap();

    assert_eq!(document.memories[0].retention_tenths, 50);
    assert_eq!(document.memories[1].retention_tenths, 1000);
}

#[test]
fn remember_returns_validation_message_for_invalid_text() {
    let mut document = PersistedMemoryDocument::empty();

    let result = remember_rejection("").unwrap();
    let error =
        remember_memory(&mut document, RetentionTier::Short, "", "id".to_string()).unwrap_err();

    assert!(!result.succeeded());
    assert_eq!(
        result.rejection,
        Some("Memory text must not be null, empty, or whitespace.".to_string())
    );
    assert!(matches!(error, MemoryError::InvalidText { .. }));
    assert!(document.memories.is_empty());
}

#[test]
fn reinforce_rejects_unknown_ids_atomically_without_consuming_cycle_weakening() {
    let mut document = PersistedMemoryDocument {
        memories: vec![memory("known", "Known memory", 100)],
    };
    let mut cycle = RetentionCycle::new();

    let (rejected, rejected_save) =
        reinforce_document(&mut document, &ids(&["known", "missing"]), &mut cycle).unwrap();
    let (accepted, accepted_save) =
        reinforce_document(&mut document, &ids(&["known"]), &mut cycle).unwrap();

    assert!(!rejected.succeeded());
    assert!(!rejected_save);
    assert_eq!(
        rejected.rejection,
        Some("Unknown memory 'missing'.".to_string())
    );
    assert!(accepted.succeeded());
    assert!(accepted_save);
    assert_eq!(document.memories[0].retention_tenths, 99);
}

#[test]
fn reinforce_weakens_once_and_reinforces_once_per_cycle() {
    let mut document = PersistedMemoryDocument {
        memories: vec![memory("a", "A", 100), memory("b", "B", 50)],
    };
    let mut cycle = RetentionCycle::new();

    let (first, first_save) = reinforce_document(&mut document, &ids(&["a"]), &mut cycle).unwrap();
    let (second, second_save) =
        reinforce_document(&mut document, &ids(&["a"]), &mut cycle).unwrap();

    assert!(first.succeeded() && first_save);
    assert!(second.succeeded() && !second_save);
    assert_eq!(document.memories[0].retention_tenths, 99);
    assert_eq!(document.memories[1].retention_tenths, 40);

    cycle.reset();
    let (third, third_save) =
        reinforce_document(&mut document, &ids(&["b"]), &mut cycle).unwrap();
    assert!(third.succeeded() && third_save);
    assert_eq!(document.memories[0].retention_tenths, 89);
    assert_eq!(document.memories[1].retention_tenths, 33);
}

#[test]
fn reinforced_decimal_retention_rounds_to_one_decimal() {
    let mut document = PersistedMemoryDocument {
        memories: vec![memory("anchor", "A", 99), memory("other", "B", 10)],
    };
    let mut cycle = RetentionCycle::new();

    let (result, save) =
        reinforce_document(&mut document, &ids(&["anchor"]), &mut cycle).unwrap();

    assert!(result.succeeded() && save);
    assert_eq!(document.memories[0].retention_tenths, 98);
    assert_eq!(document.memories[1].retention_tenths, 0);
}

#[test]
fn reinforce_refuses_weakening_below_zero() {
    let mut document = PersistedMemoryDocument {
        memories: vec![memory("a", "A", 100), memory("b", "B", 5)],
    };
    let mut cycle = RetentionCycle::new();

    let error = reinforce_document(&mut document, &ids(&["a"]), &mut cycle).unwrap_err();

    assert!(matches!(error, MemoryError::InvalidRetention));
    assert_eq!(document.memories[0].retention_tenths, 100);
    assert!(!cycle.can_decay());
}

#[test]
fn reinforce_rejects_empty_and_blank_requests() {
    let mut document = PersistedMemoryDocument {
        memories: vec![memory("a", "A", 100)],
    };
    let mut cycle = RetentionCycle::new();

    let (empty, _) = reinforce_document(&mut document, &[], &mut cycle).unwrap();
    let (blank, _) = reinforce_document(&mut document, &ids(&["  "]), &mut cycle).unwrap();

    assert_eq!(
        empty.rejection,
        Some("At least one memory id is required.".to_string())
    );
    assert_eq!(blank.rejection, Some("Unknown memory '  '.".to_string()));
    assert!(cycle.can_decay());
}

#[test]
fn forget_returns_validation_message_for_unknown_memory() {
    let mut document = PersistedMemoryDocument {
        memories: vec![memory("id-1", "First memory", 100)],
    };

    let response = forget_document(&mut document, &ids(&["id-2"]));

    assert_eq!(
        response.rejection,
        Some("Unknown memory 'id-2'.".to_string())
    );
    assert_eq!(document.memories.len(), 1);
}

#[test]
fn forget_deletes_requested_memories_only() {
    let mut document = PersistedMemoryDocument {
        memories: vec![
            memory("a", "A", 100),
            memory("b", "B", 100),
            memory("c", "C", 100),
        ],
    };

    let response = forget_document(&mut document, &ids(&["c", "a"]));

    assert!(response.succeeded());
    assert_eq!(document.memories.len(), 1);
    assert_eq!(document.memories[0].id, "b");
}

#[test]
fn memory_ids_rejection_requires_an_id() {
    assert!(memory_ids_rejection(&[]).is_some());
    assert!(memory_ids_rejection(&ids(&["a"])).is_none());
}

#[test]
fn unknown_memory_id_is_the_first_unknown_or_blank() {
    let memories = vec![memory("a", "A", 10)];

    assert_eq!(
        get_unknown_memory_id(&ids(&["a", "x", "y"]), &memories),
        Some("x".to_string())
    );
    assert_eq!(
        get_unknown_memory_id(&ids(&["a", " a"]), &memories),
        Some(" a".to_string())
    );
    assert_eq!(get_unknown_memory_id(&ids(&["a", "a"]), &memories), None);
}

#[test]
fn retention_arithmetic_in_tenths() {
    assert_eq!(reinforce(90), 99);
    assert_eq!(reinforce(89), 98);
    assert_eq!(reinforce(5), 6);
    assert_eq!(reinforce(1400), 1500);
    assert_eq!(reinforce(1500), 1500);
    assert!(matches!(decay(9), Err(MemoryError::InvalidRetention)));
    assert_eq!(decay(10).ok(), Some(0));
    assert!(should_delete(9));
    assert!(!should_delete(10));
}

#[test]
fn weakening_happens_once_per_cycle() {
    let mut document = PersistedMemoryDocument {
        memories: vec![memory("a", "A", 100)],
    };
    let mut cycle = RetentionCycle::new();

    assert!(apply_global_weakening_if_first_time(&mut document, &mut cycle).unwrap());
    assert!(!apply_global_weakening_if_first_time(&mut document, &mut cycle).unwrap());
    assert_eq!(document.memories[0].retention_tenths, 90);
}

#[test]
fn reinforce_memories_skips_duplicates_within_a_cycle() {
    let mut document = PersistedMemoryDocument {
        memories: vec![memory("a", "A", 100), memory("a", "again", 100)],
    };
    let mut cycle = RetentionCycle::new();

    assert!(reinforce_memories(&mut document, &ids(&["a", "a"]), &mut cycle));
    assert!(!reinforce_memories(&mut document, &ids(&["a"]), &mut cycle));
    assert_eq!(document.memories[0].retention_tenths, 110);
    assert_eq!(document.memories[1].retention_tenths, 100);
}

#[test]
fn retention_cycle_tracks_decay_and_reinforcement() {
    let mut cycle = RetentionCycle::new();
    assert!(cycle.can_decay());
    assert!(!cycle.can_decay());
    assert!(cycle.can_reinforce("a"));
    assert!(!cycle.can_reinforce("a"));
    assert!(cycle.can_reinforce("b"));
    cycle.reset();
    assert!(cycle.can_decay());
    assert!(cycle.can_reinforce("a"));
}

#[test]
fn change_result_constructors() {
    let rejected = MemoryChangeResult::reject("no".to_string());
    assert!(!rejected.succeeded());
    assert_eq!(rejected.rejection, Some("no".to_string()));
    assert!(MemoryChangeResult::success().succeeded());
}
