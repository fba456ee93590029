//! The persisted form of the memory: documents of memories, and the rules that
//! every stored document obeys (non-blank distinct ids, single-line texts of
//! bounded length, retention within its bound).
//!
//! Retention is held in tenths: a document stores retention rounded to one
//! decimal and capped at 150, so `retention_tenths` is that value times ten,
//! an integer in `0..=1500`.
use crate::text::{
    contains_char, has_char, is_blank, is_blank_text, is_white_space, law_trim_idempotent,
    lemma_blank_iff_all_white_space, trim, trim_text,
};
use vstd::prelude::*;
use vstd::string::*;

verus! {

/// The most characters a memory text may have.
pub const MAX_MEMORY_TEXT_CHARS: usize = 1000;

/// The highest retention a memory can hold, in tenths.
pub const MAX_RETENTION_TENTHS: u32 = 1500;

/// One stored memory.
#[derive(Debug, Clone, PartialEq)]
pub struct PersistedMemory {
    pub id: String,
    pub text: String,
    /// The retention in tenths (a retention of 9.9 is held as 99).
    pub retention_tenths: u32,
}

/// What a stored memory holds, as plain values.
pub struct MemoryModel {
    pub id: Seq<char>,
    pub text: Seq<char>,
    pub retention: u32,
}

impl View for PersistedMemory {
    type V = MemoryModel;

    open spec fn view(&self) -> MemoryModel {
        MemoryModel { id: self.id@, text: self.text@, retention: self.retention_tenths }
    }
}

/// The whole stored memory: a list of memories in insertion order.
#[derive(Debug, Clone, PartialEq)]
pub struct PersistedMemoryDocument {
    pub memories: Vec<PersistedMemory>,
}

/// The memories of a list, as plain values.
pub open spec fn memories_view(memories: Seq<PersistedMemory>) -> Seq<MemoryModel> {
    memories.map_values(|m: PersistedMemory| m@)
}

impl View for PersistedMemoryDocument {
    type V = Seq<MemoryModel>;

    open spec fn view(&self) -> Seq<MemoryModel> {
        memories_view(self.memories@)
    }
}

impl PersistedMemoryDocument {
    /// A document without memories.
    pub fn empty() -> (document: Self)
        ensures
            document@ == Seq::<MemoryModel>::empty(),
    {
        let document = PersistedMemoryDocument { memories: Vec::new() };
        assert(document@ =~= Seq::<MemoryModel>::empty());
        document
    }
}

impl Default for PersistedMemoryDocument {
    /// A document without memories.
    fn default() -> (document: Self)
        ensures
            document@ == Seq::<MemoryModel>::empty(),
    {
        PersistedMemoryDocument::empty()
    }
}

/// Why a memory or a document was refused.
#[derive(Debug, Clone, PartialEq, Eq)]
pub enum MemoryError {
    /// A memory id is empty or white space only.
    BlankId,
    /// A memory text breaks one of the text rules; `message` says which.
    InvalidText { message: String },
    /// A retention is not a finite non-negative number.
    InvalidRetention,
    /// Two memories of one document share an id.
    DuplicateId { id: String },
}

pub open spec fn blank_id_message() -> Seq<char> {
    "Memory id must not be null, empty, or whitespace."@
}

pub open spec fn invalid_retention_message() -> Seq<char> {
    "Retention must be a finite non-negative number."@
}

pub open spec fn duplicate_id_message(id: Seq<char>) -> Seq<char> {
    "Memory file has invalid structure. Duplicate memory id '"@ + id + "'."@
}

pub open spec fn blank_text_message() -> Seq<char> {
    "Memory text must not be null, empty, or whitespace."@
}

pub open spec fn multi_line_text_message() -> Seq<char> {
    "Memory text must be a single line without carriage returns or line feeds."@
}

pub open spec fn long_text_message() -> Seq<char> {
    "Memory text must be 1000 characters or fewer."@
}

impl MemoryError {
    /// The message that the error reports.
    pub open spec fn message_view(self) -> Seq<char> {
        match self {
            MemoryError::BlankId => blank_id_message(),
            MemoryError::InvalidText { message } => message@,
            MemoryError::InvalidRetention => invalid_retention_message(),
            MemoryError::DuplicateId { id } => duplicate_id_message(id@),
        }
    }

    /// The message that the error reports.
    pub fn message(&self) -> (m: String)
        ensures
            m@ == self.message_view(),
    {
        match self {
            MemoryError::BlankId => String::from_str(
                "Memory id must not be null, empty, or whitespace.",
            ),
            MemoryError::InvalidText { message } => message.clone(),
            MemoryError::InvalidRetention => String::from_str(
                "Retention must be a finite non-negative number.",
            ),
            MemoryError::DuplicateId { id } => {
                let m = String::from_str("Memory file has invalid structure. Duplicate memory id '");
                m.concat(id.as_str()).concat("'.")
            },
        }
    }
}

/// The rule that a memory text breaks first, if any: it must not be blank,
/// must be a single line, and must have at most 1000 characters.
pub open spec fn text_validation_error(text: Seq<char>) -> Option<Seq<char>> {
    if is_blank(text) {
        Some(blank_text_message())
    } else if has_char(text, '\r') || has_char(text, '\n') {
        Some(multi_line_text_message())
    } else if text.len() > MAX_MEMORY_TEXT_CHARS {
        Some(long_text_message())
    } else {
        None
    }
}

/// Checks an id and gives it back without surrounding white space.
pub fn validate_id(id: &str) -> (r: Result<String, MemoryError>)
    ensures
        r is Err <==> is_blank(id@),
        r matches Err(e) ==> e is BlankId,
        r matches Ok(v) ==> v@ == trim(id@),
{
    if is_blank_text(id) {
        return Err(MemoryError::BlankId);
    }
    Ok(trim_text(id))
}

/// The message of the first text rule that `text` breaks, or `None` when it
/// is a valid memory text.
pub fn get_memory_text_validation_error(text: &str) -> (r: Option<String>)
    ensures
        r is Some <==> text_validation_error(text@) is Some,
        r matches Some(m) ==> m@ == text_validation_error(text@)->0,
{
    if is_blank_text(text) {
        return Some(String::from_str("Memory text must not be null, empty, or whitespace."));
    }
    if contains_char(text, '\r') || contains_char(text, '\n') {
        return Some(
            String::from_str(
                "Memory text must be a single line without carriage returns or line feeds.",
            ),
        );
    }
    if text.unicode_len() > MAX_MEMORY_TEXT_CHARS {
        return Some(String::from_str("Memory text must be 1000 characters or fewer."));
    }
    None
}

/// Gives back a valid memory text unchanged, or the rule that it breaks.
pub fn require_valid_memory_text(text: &str) -> (r: Result<String, MemoryError>)
    ensures
        r is Ok <==> text_validation_error(text@) is None,
        r matches Ok(v) ==> v@ == text@,
        r matches Err(e) ==> e matches MemoryError::InvalidText { message } && message@
            == text_validation_error(text@)->0,
{
    match get_memory_text_validation_error(text) {
        Some(message) => Err(MemoryError::InvalidText { message }),
        None => Ok(text.to_owned()),
    }
}

pub open spec fn blank_path_message() -> Seq<char> {
    "The configured memory file path must not be empty or whitespace."@
}

/// The refusal of a configured memory file path that is empty or white space
/// only, if it is.
pub fn configured_path_rejection(configured_path: &str) -> (r: Option<String>)
    ensures
        r is Some <==> is_blank(configured_path@),
        r matches Some(m) ==> m@ == blank_path_message(),
{
    if is_blank_text(configured_path) {
        Some(String::from_str("The configured memory file path must not be empty or whitespace."))
    } else {
        None
    }
}

/// A retention in tenths capped at its bound, as a stored retention is.
pub open spec fn capped_retention(retention: u32) -> u32 {
    if retention <= MAX_RETENTION_TENTHS {
        retention
    } else {
        MAX_RETENTION_TENTHS
    }
}

/// Caps a retention given in tenths at 150.0.
pub fn normalize_retention_tenths(retention: u32) -> (r: u32)
    ensures
        r == capped_retention(retention),
{
    if retention <= MAX_RETENTION_TENTHS {
        retention
    } else {
        MAX_RETENTION_TENTHS
    }
}

/// The memory at `i` breaks a document rule: its id is blank, its text is
/// invalid, or its trimmed id is that of an earlier memory.
pub open spec fn memory_fault(s: Seq<MemoryModel>, i: int) -> bool {
    ||| is_blank(s[i].id)
    ||| text_validation_error(s[i].text) is Some
    ||| exists|j: int| 0 <= j < i && trim(#[trigger] s[j].id) == trim(s[i].id)
}

/// Every memory of `s` obeys the document rules.
pub open spec fn document_valid(s: Seq<MemoryModel>) -> bool {
    forall|i: int| 0 <= i < s.len() ==> !#[trigger] memory_fault(s, i)
}

/// `i` is the first memory of `s` that breaks a document rule.
pub open spec fn first_fault(s: Seq<MemoryModel>, i: int) -> bool {
    &&& 0 <= i < s.len()
    &&& memory_fault(s, i)
    &&& forall|j: int| 0 <= j < i ==> !#[trigger] memory_fault(s, j)
}

/// `e` is the error that the memory at `i` is refused with: the blank id
/// first, then the text rule, then the duplicate id.
pub open spec fn fault_error(s: Seq<MemoryModel>, i: int, e: MemoryError) -> bool {
    if is_blank(s[i].id) {
        e is BlankId
    } else if text_validation_error(s[i].text) is Some {
        e matches MemoryError::InvalidText { message } && message@ == text_validation_error(
            s[i].text,
        )->0
    } else {
        e matches MemoryError::DuplicateId { id } && id@ == trim(s[i].id)
    }
}

/// A memory as a valid document stores it: trimmed id, capped retention.
pub open spec fn normalized_memory(m: MemoryModel) -> MemoryModel {
    MemoryModel { id: trim(m.id), text: m.text, retention: capped_retention(m.retention) }
}

/// Checks a document against the document rules and, when it obeys them,
/// trims its ids and caps its retentions. A refused document is left as it was.
pub fn validate_document(document: &mut PersistedMemoryDocument) -> (r: Result<(), MemoryError>)
    ensures
        r is Ok <==> document_valid(old(document)@),
        r is Ok ==> final(document)@ == old(document)@.map_values(
            |m: MemoryModel| normalized_memory(m),
        ),
        r matches Err(e) ==> final(document)@ == old(document)@ && exists|i: int|
            first_fault(old(document)@, i) && fault_error(old(document)@, i, e),
{
    let ghost s = document@;
    let n = document.memories.len();
    let mut seen: Vec<String> = Vec::new();
    let mut i: usize = 0;
    while i < n
        invariant
            s == document@,
            n == s.len(),
            i <= n,
            seen@.len() == i,
            forall|j: int| 0 <= j < i ==> (#[trigger] seen@[j])@ == trim(s[j].id),
            forall|j: int| 0 <= j < i ==> !#[trigger] memory_fault(s, j),
        decreases n - i,
    {
        let memory = &document.memories[i];
        assert(memory@ == s[i as int]);
        let id = match validate_id(memory.id.as_str()) {
            Ok(id) => id,
            Err(e) => {
                assert(first_fault(s, i as int));
                return Err(e);
            },
        };
        match require_valid_memory_text(memory.text.as_str()) {
            Ok(_) => {},
            Err(e) => {
                assert(first_fault(s, i as int));
                return Err(e);
            },
        }
        let mut j: usize = 0;
        while j < i
            invariant
                s == document@,
                i < n,
                n == s.len(),
                j <= i,
                seen@.len() == i,
                id@ == trim(s[i as int].id),
                forall|k: int| 0 <= k < i ==> (#[trigger] seen@[k])@ == trim(s[k].id),
                forall|k: int| 0 <= k < j ==> trim(#[trigger] s[k].id) != trim(s[i as int].id),
                forall|k: int| 0 <= k < i ==> !#[trigger] memory_fault(s, k),
                !is_blank(s[i as int].id),
                text_validation_error(s[i as int].text) is None,
            decreases i - j,
        {
            if seen[j] == id {
                assert(memory_fault(s, i as int));
                assert(first_fault(s, i as int));
                return Err(MemoryError::DuplicateId { id });
            }
            j = j + 1;
        }
        assert(!memory_fault(s, i as int));
        seen.push(id);
        i = i + 1;
    }
    let mut normalized: Vec<PersistedMemory> = Vec::new();
    let mut k: usize = 0;
    while k < n
        invariant
            s == document@,
            n == s.len(),
            k <= n,
            normalized@.len() == k,
            seen@.len() == n,
            forall|j: int| 0 <= j < n ==> (#[trigger] seen@[j])@ == trim(s[j].id),
            memories_view(normalized@) =~= s.take(k as int).map_values(
                |m: MemoryModel| normalized_memory(m),
            ),
        decreases n - k,
    {
        let memory = &document.memories[k];
        assert(memory@ == s[k as int]);
        let id = seen[k].clone();
        let text = memory.text.clone();
        let retention_tenths = normalize_retention_tenths(memory.retention_tenths);
        let ghost before = normalized@;
        normalized.push(PersistedMemory { id, text, retention_tenths });
        proof {
            assert(s.take(k + 1) =~= s.take(k as int).push(s[k as int]));
            assert(normalized@ == before.push(normalized@[k as int]));
            assert(memories_view(normalized@) =~= memories_view(before).push(
                normalized_memory(s[k as int]),
            ));
        }
        k = k + 1;
    }
    proof {
        assert(s.take(n as int) =~= s);
    }
    document.memories = normalized;
    Ok(())
}

/// A memory in the form a valid document stores it: a non-blank trimmed id, a
/// valid text and a retention within its bound.
pub open spec fn stored_memory(m: MemoryModel) -> bool {
    &&& !is_blank(m.id)
    &&& trim(m.id) == m.id
    &&& text_validation_error(m.text) is None
    &&& m.retention <= MAX_RETENTION_TENTHS
}

/// The form of a document that has passed validation: every memory in stored
/// form, no id twice.
pub open spec fn stored_form(s: Seq<MemoryModel>) -> bool {
    &&& forall|i: int| 0 <= i < s.len() ==> stored_memory(#[trigger] s[i])
    &&& forall|i: int, j: int| 0 <= i < j < s.len() ==> (#[trigger] s[i]).id != (#[trigger] s[j]).id
}

/// What validation makes of a valid document is in stored form.
pub proof fn law_validated_document_is_stored(s: Seq<MemoryModel>)
    requires
        document_valid(s),
    ensures
        stored_form(s.map_values(|m: MemoryModel| normalized_memory(m))),
{
    let t = s.map_values(|m: MemoryModel| normalized_memory(m));
    assert forall|i: int| 0 <= i < t.len() implies stored_memory(#[trigger] t[i]) by {
        assert(!memory_fault(s, i));
        law_trim_idempotent(s[i].id);
    }
    assert forall|i: int, j: int| 0 <= i < j < t.len() implies (#[trigger] t[i]).id != (
    #[trigger] t[j]).id by {
        assert(!memory_fault(s, j));
    }
}

/// A document in stored form passes validation and comes back unchanged, so
/// storing and loading it again gives the same memories.
pub proof fn law_stored_document_validates_unchanged(s: Seq<MemoryModel>)
    requires
        stored_form(s),
    ensures
        document_valid(s),
        s.map_values(|m: MemoryModel| normalized_memory(m)) == s,
{
    assert forall|i: int| 0 <= i < s.len() implies !#[trigger] memory_fault(s, i) by {
        assert(stored_memory(s[i]));
        if exists|j: int| 0 <= j < i && trim(#[trigger] s[j].id) == trim(s[i].id) {
            let j = choose|j: int| 0 <= j < i && trim(#[trigger] s[j].id) == trim(s[i].id);
            assert(stored_memory(s[j]));
        }
    }
    assert(s.map_values(|m: MemoryModel| normalized_memory(m)) =~= s);
}


/// A memory text is refused exactly when it is white space only (or empty),
/// holds a carriage return or a line feed, or has more than 1000 characters;
/// any other text, whatever characters it holds, is accepted.
pub proof fn law_text_rules(text: Seq<char>)
    ensures
        text_validation_error(text) is None <==> {
            &&& exists|i: int| 0 <= i < text.len() && !is_white_space(#[trigger] text[i])
            &&& forall|i: int| 0 <= i < text.len() ==> (#[trigger] text[i]) != '\r' && text[i] != '\n'
            &&& text.len() <= 1000
        },
        (forall|i: int| 0 <= i < text.len() ==> is_white_space(#[trigger] text[i])) ==> text_validation_error(text)
            == Some(blank_text_message()),
        (exists|i: int| 0 <= i < text.len() && !is_white_space(#[trigger] text[i])) && (exists|i: int|
            0 <= i < text.len() && ((#[trigger] text[i]) == '\r' || text[i] == '\n')) ==> text_validation_error(text)
            == Some(multi_line_text_message()),
{
    lemma_blank_iff_all_white_space(text);
    if exists|i: int| 0 <= i < text.len() && ((#[trigger] text[i]) == '\r' || text[i] == '\n') {
        let i = choose|i: int| 0 <= i < text.len() && ((#[trigger] text[i]) == '\r' || text[i] == '\n');
        if text[i] == '\r' {
            assert(has_char(text, '\r'));
        } else {
            assert(has_char(text, '\n'));
        }
    }
}

} // verus!
