use password_manager::crypto::{initialize_cipher, ConfigError, DecryptionError};
use password_manager::store::{render_entries, Entry};
use password_manager::vault::{masked, Action, AddEntryError, App, FeedbackKind, InputMode, KeyInput};

fn vault(entries: Vec<Entry>) -> App {
    App::new(entries, initialize_cipher(Some("correct-horse")).unwrap())
}

fn is_b64(s: &str) -> bool {
    !s.is_empty() && s.chars().all(|c| c.is_ascii_alphanumeric() || c == '+' || c == '/' || c == '=')
}

#[test]
fn added_entry_is_stored_sealed_and_revealed() {
    let mut app = vault(Vec::new());
    assert_eq!(app.add_credential("gmail", "s3cr3t"), Ok(()));
    let text = render_entries(app.list_entries());
    let line = text.strip_suffix('\n').unwrap();
    let (account, payload) = line.split_once(',').unwrap();
    assert_eq!(account, "gmail");
    let (n, c) = payload.split_once(':').unwrap();
    assert!(is_b64(n) && is_b64(c));
    assert_eq!(app.reveal_password(0), Some(Ok("s3cr3t".to_string())));
}

#[test]
fn add_trims_both_fields() {
    let mut app = vault(Vec::new());
    assert_eq!(app.add_credential("  gmail ", "\ts3cr3t "), Ok(()));
    assert_eq!(app.list_entries()[0].account, "gmail");
    assert_eq!(app.reveal_password(0), Some(Ok("s3cr3t".to_string())));
}

#[test]
fn add_refuses_blank_fields() {
    let mut app = vault(Vec::new());
    assert_eq!(app.add_credential("   ", "pw"), Err(AddEntryError::EmptyField));
    assert_eq!(app.add_credential("acc", ""), Err(AddEntryError::EmptyField));
    assert!(app.list_entries().is_empty());
}

#[test]
fn reveal_out_of_range_is_none() {
    let app = vault(Vec::new());
    assert_eq!(app.reveal_password(0), None);
}

#[test]
fn reveal_reports_malformed_entry() {
    let app = vault(vec![Entry { account: "a".to_string(), password: "x:y".to_string() }]);
    assert_eq!(app.reveal_password(0), Some(Err(DecryptionError::Malformed)));
}

#[test]
fn next_and_previous_wrap_around() {
    let entries = vec![
        Entry { account: "a".to_string(), password: "x:y".to_string() },
        Entry { account: "b".to_string(), password: "x:y".to_string() },
        Entry { account: "c".to_string(), password: "x:y".to_string() },
    ];
    let mut app = vault(entries);
    assert_eq!(app.selected(), 0);
    app.previous();
    assert_eq!(app.selected(), 2);
    app.next();
    assert_eq!(app.selected(), 0);
    app.next();
    app.next();
    assert_eq!(app.selected(), 2);
}

#[test]
fn navigation_on_empty_vault_stays_put() {
    let mut app = vault(Vec::new());
    app.next();
    app.previous();
    assert_eq!(app.selected(), 0);
}

#[test]
fn typing_a_new_entry_through_keys() {
    let mut app = vault(Vec::new());
    assert_eq!(app.handle_key(KeyInput::Char('a')), Action::Continue);
    assert_eq!(app.input_mode(), InputMode::EditingAccount);
    for c in "gmailx".chars() {
        app.handle_key(KeyInput::Char(c));
    }
    app.handle_key(KeyInput::Backspace);
    assert_eq!(app.account_input(), "gmail");
    app.handle_key(KeyInput::Enter);
    assert_eq!(app.input_mode(), InputMode::EditingPassword);
    for c in "s3cr3t".chars() {
        app.handle_key(KeyInput::Char(c));
    }
    assert_eq!(app.handle_key(KeyInput::Enter), Action::Save);
    assert_eq!(app.input_mode(), InputMode::Normal);
    assert_eq!(app.account_input(), "");
    assert_eq!(app.password_input(), "");
    app.finish_save(None);
    let f = app.feedback().clone().unwrap();
    assert_eq!(f.kind, FeedbackKind::Success);
    assert_eq!(app.list_entries()[0].account, "gmail");
    app.handle_key(KeyInput::Char('v'));
    let f = app.feedback().clone().unwrap();
    assert_eq!(f.kind, FeedbackKind::Info);
    assert_eq!(f.text, "Password untuk gmail: s3cr3t");
}

#[test]
fn empty_password_keeps_editing_with_error() {
    let mut app = vault(Vec::new());
    app.handle_key(KeyInput::Char('a'));
    app.handle_key(KeyInput::Char('x'));
    app.handle_key(KeyInput::Enter);
    assert_eq!(app.handle_key(KeyInput::Enter), Action::Continue);
    assert_eq!(app.input_mode(), InputMode::EditingPassword);
    let f = app.feedback().clone().unwrap();
    assert_eq!(f.kind, FeedbackKind::Error);
    assert_eq!(f.text, "Account atau password tidak boleh kosong.");
    assert!(app.list_entries().is_empty());
}

#[test]
fn escape_clears_field_and_returns_to_normal() {
    let mut app = vault(Vec::new());
    app.handle_key(KeyInput::Char('a'));
    app.handle_key(KeyInput::Char('x'));
    app.handle_key(KeyInput::Esc);
    assert_eq!(app.input_mode(), InputMode::Normal);
    assert_eq!(app.account_input(), "");
}

#[test]
fn q_quits_only_in_normal_mode() {
    let mut app = vault(Vec::new());
    app.handle_key(KeyInput::Char('a'));
    assert_eq!(app.handle_key(KeyInput::Char('q')), Action::Continue);
    assert_eq!(app.account_input(), "q");
    app.handle_key(KeyInput::Esc);
    assert_eq!(app.handle_key(KeyInput::Char('q')), Action::Quit);
}

#[test]
fn failed_save_is_reported() {
    let mut app = vault(Vec::new());
    app.finish_save(Some("disk full"));
    let f = app.feedback().clone().unwrap();
    assert_eq!(f.kind, FeedbackKind::Error);
    assert_eq!(f.text, "Error menyimpan entri: disk full");
}

#[test]
fn reveal_key_with_wrong_key_reports_auth_failure() {
    let other = initialize_cipher(Some("battery-staple")).unwrap();
    let sealed = other.encrypt_password("pw").unwrap();
    let mut app = vault(vec![Entry { account: "a".to_string(), password: sealed }]);
    app.handle_key(KeyInput::Char('v'));
    let f = app.feedback().clone().unwrap();
    assert_eq!(f.kind, FeedbackKind::Error);
    assert_eq!(f.text, "Gagal mendekripsi password.");
}

#[test]
fn mask_has_one_star_per_byte_within_bounds() {
    assert_eq!(masked(""), "*");
    assert_eq!(masked("abc"), "***");
    assert_eq!(masked("é"), "**");
    assert_eq!(masked(&"x".repeat(40)), "*".repeat(32));
}

#[test]
fn config_errors_have_notices() {
    assert_eq!(ConfigError::Missing.message(), "Environment variable PASSWORD_MANAGER_KEY belum diset.");
    assert_eq!(ConfigError::Empty.message(), "PASSWORD_MANAGER_KEY tidak boleh kosong.");
}
