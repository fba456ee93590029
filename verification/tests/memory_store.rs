use engram_mcp::memory_store::{
    get_memory_text_validation_error, normalize_retention_tenths, require_valid_memory_text,
    validate_document, validate_id, MemoryError, PersistedMemory, PersistedMemoryDocument,
};

fn memory(id: &str, text: &str, retention_tenths: u32) -> PersistedMemory {
    PersistedMemory {
        id: id.to_string(),
        text: text.to_string(),
        retention_tenths,
    }
}

#[test]
fn validate_id_rejects_whitespace() {
    let error = validate_id("   ").unwrap_err().message();
    assert!(error.contains("Memory id must not be null, empty, or whitespace."));
}

#[test]
fn validate_id_trims_surrounding_white_space() {
    assert_eq!(validate_id("  id-1\t").unwrap(), "id-1");
    assert_eq!(validate_id("\u{3000}x y\u{a0}").unwrap(), "x y");
}

#[test]
fn validate_id_rejects_empty_and_unicode_white_space() {
    assert!(matches!(validate_id(""), Err(MemoryError::BlankId)));
    assert!(matches!(validate_id("\u{2003}\u{85}"), Err(MemoryError::BlankId)));
}

#[test]
fn text_validation_reports_each_rule() {
    assert_eq!(
        get_memory_text_validation_error(" \t "),
        Some("Memory text must not be null, empty, or whitespace.".to_string())
    );
    assert_eq!(
        get_memory_text_validation_error("first\nsecond"),
        Some(
            "Memory text must be a single line without carriage returns or line feeds."
                .to_string()
        )
    );
    assert_eq!(
        get_memory_text_validation_error("first\rsecond"),
        Some(
            "Memory text must be a single line without carriage returns or line feeds."
                .to_string()
        )
    );
    assert_eq!(
        get_memory_text_validation_error(&"é".repeat(1001)),
        Some("Memory text must be 1000 characters or fewer.".to_string())
    );
    assert_eq!(get_memory_text_validation_error(&"é".repeat(1000)), None);
    assert_eq!(get_memory_text_validation_error("Durable fact"), None);
}

#[test]
fn require_valid_memory_text_returns_text_or_error() {
    assert_eq!(require_valid_memory_text("  keep spaces ").unwrap(), "  keep spaces ");
    let error = require_valid_memory_text("").unwrap_err();
    assert_eq!(
        error.message(),
        "Memory text must not be null, empty, or whitespace."
    );
}

#[test]
fn normalize_retention_caps_at_one_hundred_fifty() {
    assert_eq!(normalize_retention_tenths(99), 99);
    assert_eq!(normalize_retention_tenths(1500), 1500);
    assert_eq!(normalize_retention_tenths(1651), 1500);
}

#[test]
fn validate_document_trims_ids_and_caps_retention() {
    let mut document = PersistedMemoryDocument {
        memories: vec![memory(" a ", "first", 2000), memory("b", "second", 9)],
    };

    validate_document(&mut document).unwrap();

    assert_eq!(document.memories[0].id, "a");
    assert_eq!(document.memories[0].retention_tenths, 1500);
    assert_eq!(document.memories[1].id, "b");
    assert_eq!(document.memories[1].retention_tenths, 9);
}

#[test]
fn validate_document_rejects_duplicate_trimmed_ids_and_keeps_document() {
    let mut document = PersistedMemoryDocument {
        memories: vec![memory("a", "first", 10), memory(" a", "second", 10)],
    };

    let error = validate_document(&mut document).unwrap_err();

    assert_eq!(
        error.message(),
        "Memory file has invalid structure. Duplicate memory id 'a'."
    );
    assert_eq!(document.memories[1].id, " a");
}

#[test]
fn validate_document_reports_first_faulty_memory() {
    let mut document = PersistedMemoryDocument {
        memories: vec![
            memory("a", "fine", 10),
            memory("b", "two\nlines", 10),
            memory(" ", "fine", 10),
        ],
    };

    let error = validate_document(&mut document).unwrap_err();

    assert_eq!(
        error.message(),
        "Memory text must be a single line without carriage returns or line feeds."
    );
}

#[test]
fn error_messages_match_their_rules() {
    assert_eq!(
        MemoryError::InvalidRetention.message(),
        "Retention must be a finite non-negative number."
    );
    assert_eq!(
        MemoryError::BlankId.message(),
        "Memory id must not be null, empty, or whitespace."
    );
}
