use ledger::date::Date;
use ledger::date::today;
use ledger::export::ExportCounter;
use ledger::export::export_text;
use ledger::export::file_name_for;
use ledger::export::generate_file_name;
use ledger::export::snapshot_text;
use ledger::registry::LedgerError;
use ledger::registry::Registry;
use ledger::registry::apply_credit;

fn birth_date() -> Date {
    Date::new(1990, 1, 15).unwrap()
}

fn register_simple(reg: &mut Registry, name: &str, doc: &str) -> Result<u32, LedgerError> {
    reg.register(
        name.to_string(),
        birth_date(),
        doc.to_string(),
        "AR".to_string(),
    )
}

#[test]
fn register_assigns_sequential_ids() {
    let mut reg = Registry::new();
    assert_eq!(register_simple(&mut reg, "Alice", "D1"), Ok(1));
    assert_eq!(register_simple(&mut reg, "Bob", "D2"), Ok(2));
    assert_eq!(register_simple(&mut reg, "Carol", "D3"), Ok(3));
    assert_eq!(reg.len(), 3);
}

#[test]
fn register_duplicate_document_fails_without_effect() {
    let mut reg = Registry::new();
    assert_eq!(register_simple(&mut reg, "Alice", "D1"), Ok(1));
    assert_eq!(
        register_simple(&mut reg, "Bob", "D1"),
        Err(LedgerError::DuplicateDocument)
    );
    assert_eq!(reg.len(), 1);
    // The failed attempt consumed no identifier.
    assert_eq!(register_simple(&mut reg, "Bob", "D2"), Ok(2));
}

#[test]
fn new_client_starts_at_zero_balance() {
    let mut reg = Registry::new();
    assert_eq!(register_simple(&mut reg, "Alice", "D1"), Ok(1));
    assert_eq!(reg.balance_of(1), Ok(0));
}

#[test]
fn get_returns_the_stored_record() {
    let mut reg = Registry::new();
    assert_eq!(register_simple(&mut reg, "Alice", "D1"), Ok(1));
    let c = reg.get(1).unwrap();
    assert_eq!(c.id, 1);
    assert_eq!(c.name, "Alice");
    assert_eq!(c.document_number, "D1");
    assert_eq!(c.country, "AR");
    assert_eq!(c.birth_date.year, 1990);
    assert_eq!(c.birth_date.month, 1);
    assert_eq!(c.birth_date.day, 15);
    assert_eq!(c.balance, 0);
    assert!(matches!(reg.get(2), Err(LedgerError::ClientNotFound)));
}

#[test]
fn apply_credit_adds_exactly() {
    let mut reg = Registry::new();
    assert_eq!(register_simple(&mut reg, "Alice", "D1"), Ok(1));
    assert_eq!(apply_credit(&mut reg, 1, 100), Ok(100));
    assert_eq!(apply_credit(&mut reg, 1, 25), Ok(125));
    assert_eq!(apply_credit(&mut reg, 1, 0), Ok(125));
    assert_eq!(reg.balance_of(1), Ok(125));
}

#[test]
fn apply_credit_negative_amount_fails_without_effect() {
    let mut reg = Registry::new();
    assert_eq!(register_simple(&mut reg, "Alice", "D1"), Ok(1));
    assert_eq!(apply_credit(&mut reg, 1, 100), Ok(100));
    assert_eq!(apply_credit(&mut reg, 1, -1), Err(LedgerError::InvalidAmount));
    assert_eq!(reg.balance_of(1), Ok(100));
}

#[test]
fn apply_credit_unknown_client_fails_without_effect() {
    let mut reg = Registry::new();
    assert_eq!(register_simple(&mut reg, "Alice", "D1"), Ok(1));
    assert_eq!(apply_credit(&mut reg, 1, 100), Ok(100));
    assert_eq!(apply_credit(&mut reg, 7, 50), Err(LedgerError::ClientNotFound));
    assert_eq!(reg.len(), 1);
    assert_eq!(reg.balance_of(1), Ok(100));
}

#[test]
fn balance_of_unknown_client_fails() {
    let reg = Registry::new();
    assert_eq!(reg.balance_of(1), Err(LedgerError::ClientNotFound));
}

#[test]
fn export_counter_counts_from_zero() {
    let mut counter = ExportCounter::new();
    assert_eq!(counter.next(), 0);
    assert_eq!(counter.next(), 1);
    assert_eq!(counter.next(), 2);
}

#[test]
fn file_name_renders_padded_date_and_counter() {
    let d = Date::new(2024, 6, 5).unwrap();
    assert_eq!(file_name_for(d, 0), "05062024_0.DAT");
    assert_eq!(file_name_for(d, 12), "05062024_12.DAT");
    let e = Date::new(987, 11, 3).unwrap();
    assert_eq!(file_name_for(e, 42), "03110987_42.DAT");
}

#[test]
fn file_names_differ_only_in_counter_suffix() {
    let d = Date::new(2024, 6, 5).unwrap();
    let first = file_name_for(d, 0);
    let second = file_name_for(d, 1);
    assert_ne!(first, second);
    assert_eq!(&first[..9], &second[..9]);
    assert!(first.ends_with("_0.DAT"));
    assert!(second.ends_with("_1.DAT"));
}

#[test]
fn generate_file_name_uses_the_current_date() {
    let d = today().expect("the local clock reports a renderable date");
    let name = generate_file_name(9).expect("a file name for the current date");
    assert_eq!(name, file_name_for(d, 9));
    assert_eq!(name.len(), "00000000_9.DAT".len());
    assert!(name[..8].bytes().all(|b| b.is_ascii_digit()));
    assert!(name.ends_with("_9.DAT"));
}

#[test]
fn snapshot_has_one_line_per_client_in_exact_format() {
    let mut reg = Registry::new();
    assert_eq!(register_simple(&mut reg, "Alice", "D1"), Ok(1));
    assert_eq!(register_simple(&mut reg, "Bob", "D2"), Ok(2));
    assert_eq!(apply_credit(&mut reg, 1, 100), Ok(100));
    let pairs = reg.all();
    assert_eq!(pairs, vec![(1, 100), (2, 0)]);
    assert_eq!(snapshot_text(&pairs), "1: 100\n2: 0\n");
    assert_eq!(export_text(&reg), "1: 100\n2: 0\n");
}

#[test]
fn snapshot_of_empty_registry_is_empty() {
    let reg = Registry::new();
    assert_eq!(snapshot_text(&reg.all()), "");
}

#[test]
fn date_validation_follows_the_calendar() {
    assert!(Date::new(2024, 2, 29).is_some());
    assert!(Date::new(2023, 2, 29).is_none());
    assert!(Date::new(2000, 2, 29).is_some());
    assert!(Date::new(1900, 2, 29).is_none());
    assert!(Date::new(2024, 4, 31).is_none());
    assert!(Date::new(2024, 13, 1).is_none());
    assert!(Date::new(2024, 1, 0).is_none());
    assert!(Date::new(10000, 1, 1).is_none());
    assert!(Date::new(-1, 1, 1).is_none());
    assert!(Date::new(0, 1, 1).is_some());
}

#[test]
fn scenario_register_credit_duplicate_query_export() {
    let mut reg = Registry::new();
    let mut counter = ExportCounter::new();

    let id = register_simple(&mut reg, "A", "X1").unwrap();
    assert_eq!(id, 1);
    assert_eq!(reg.balance_of(1), Ok(0));

    assert_eq!(apply_credit(&mut reg, 1, 100), Ok(100));

    assert_eq!(
        register_simple(&mut reg, "B", "X1"),
        Err(LedgerError::DuplicateDocument)
    );
    assert_eq!(reg.len(), 1);

    assert_eq!(reg.balance_of(1), Ok(100));

    let name = file_name_for(Date::new(2024, 6, 5).unwrap(), counter.next());
    assert_eq!(name, "05062024_0.DAT");
    assert_eq!(export_text(&reg), "1: 100\n");
}
