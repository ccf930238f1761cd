use password_manager::codec::{classify, FieldKind};
use password_manager::crypto::initialize_cipher;
use password_manager::store::{load_entries, render_entries, split_lines, Entry};

#[test]
fn split_lines_drops_line_endings() {
    assert_eq!(split_lines("a\r\nb\n\nc"), vec!["a", "b", "", "c"]);
    assert_eq!(split_lines("a\n"), vec!["a"]);
    assert_eq!(split_lines(""), Vec::<String>::new());
    assert_eq!(split_lines("x\r"), vec!["x\r"]);
}

#[test]
fn legacy_line_is_migrated_and_survives_reload() {
    let e = initialize_cipher(Some("correct-horse")).unwrap();
    let (entries, migrated) = load_entries("old,plainpass\n", &e).unwrap();
    assert!(migrated);
    assert_eq!(entries.len(), 1);
    assert_eq!(entries[0].account, "old");
    assert_eq!(classify(&entries[0].password), FieldKind::Encrypted);
    let saved = render_entries(&entries);
    let (again, migrated2) = load_entries(&saved, &e).unwrap();
    assert!(!migrated2);
    assert_eq!(again.len(), 1);
    assert_eq!(again[0].password, entries[0].password);
    assert_eq!(e.decrypt_password(&again[0].password).unwrap(), "plainpass");
}

#[test]
fn only_legacy_lines_migrate_then_settle() {
    let e = initialize_cipher(Some("pw")).unwrap();
    let text = "a,one\nb,two\r\nc,three";
    let (entries, migrated) = load_entries(text, &e).unwrap();
    assert!(migrated);
    let saved = render_entries(&entries);
    let (again, migrated2) = load_entries(&saved, &e).unwrap();
    assert!(!migrated2);
    let plains: Vec<String> = again.iter().map(|x| e.decrypt_password(&x.password).unwrap()).collect();
    assert_eq!(plains, vec!["one", "two", "three"]);
    let accounts: Vec<&str> = again.iter().map(|x| x.account.as_str()).collect();
    assert_eq!(accounts, vec!["a", "b", "c"]);
}

#[test]
fn text_without_separator_is_sealed_at_load() {
    let e = initialize_cipher(Some("correct-horse")).unwrap();
    let (entries, migrated) = load_entries("old,justtext", &e).unwrap();
    assert!(migrated);
    assert_eq!(e.decrypt_password(&entries[0].password).unwrap(), "justtext");
}

#[test]
fn empty_right_half_is_sealed_as_is() {
    let e = initialize_cipher(Some("correct-horse")).unwrap();
    let (entries, migrated) = load_entries("x,abc:", &e).unwrap();
    assert!(migrated);
    assert_eq!(entries[0].account, "x");
    assert_eq!(e.decrypt_password(&entries[0].password).unwrap(), "abc:");
}

#[test]
fn encrypted_shape_is_kept_verbatim() {
    let e = initialize_cipher(Some("correct-horse")).unwrap();
    let (entries, migrated) = load_entries("gmail,YWJj:ZGVm\n", &e).unwrap();
    assert!(!migrated);
    assert_eq!(entries[0].password, "YWJj:ZGVm");
}

#[test]
fn lines_without_comma_are_skipped_and_first_comma_wins() {
    let e = initialize_cipher(Some("k")).unwrap();
    let (entries, _) = load_entries("nocomma\nacc,pa,ss\n\n", &e).unwrap();
    assert_eq!(entries.len(), 1);
    assert_eq!(entries[0].account, "acc");
    assert_eq!(e.decrypt_password(&entries[0].password).unwrap(), "pa,ss");
}

#[test]
fn empty_text_loads_nothing() {
    let e = initialize_cipher(Some("k")).unwrap();
    let (entries, migrated) = load_entries("", &e).unwrap();
    assert!(entries.is_empty());
    assert!(!migrated);
}

#[test]
fn render_writes_one_line_per_entry() {
    let entries = vec![
        Entry { account: "a".to_string(), password: "x:y".to_string() },
        Entry { account: "b".to_string(), password: "z:w".to_string() },
    ];
    assert_eq!(render_entries(&entries), "a,x:y\nb,z:w\n");
    assert_eq!(render_entries(&Vec::new()), "");
}
