//! The vault as its front end sees it: the entries, the selected one, the
//! two input fields of a new entry, and the last notice shown.
use vstd::prelude::*;
use vstd::string::StringSliceAdditionalSpecFns;

use crate::codec::NONCE_LEN;
use crate::crypto::{
    decryption, sealable, sealed_payload, CipherEngine, ConfigError, DecryptionError,
    EncryptionError,
};
use crate::store::{entries_view, Entry};
use crate::text::{append_str, chars_of, push_char, string_of_range, trim, trimmed};

verus! {

/// How a notice is shown.
#[derive(Clone, Copy, Debug, PartialEq, Eq, Structural)]
pub enum FeedbackKind {
    Info,
    Success,
    Error,
}

/// A notice for the user.
#[derive(Clone, Debug)]
pub struct Feedback {
    pub text: String,
    pub kind: FeedbackKind,
}

/// Which field, if any, keystrokes go to.
#[derive(Clone, Copy, Debug, PartialEq, Eq, Structural)]
pub enum InputMode {
    Normal,
    EditingAccount,
    EditingPassword,
}

/// Why a new entry was not added.
#[derive(Clone, Copy, Debug, PartialEq, Eq, Structural)]
pub enum AddEntryError {
    /// The account or the password is empty once trimmed.
    EmptyField,
    /// The password could not be sealed.
    Encryption(EncryptionError),
}

/// A key press, as far as the vault tells keys apart.
#[derive(Clone, Copy, Debug, PartialEq, Eq, Structural)]
pub enum KeyInput {
    Char(char),
    Up,
    Down,
    Enter,
    Esc,
    Backspace,
    Other,
}

/// What the front end does after a key press.
#[derive(Clone, Copy, Debug, PartialEq, Eq, Structural)]
pub enum Action {
    /// Carry on.
    Continue,
    /// Leave.
    Quit,
    /// An entry was added: write the entries to the backing file, then
    /// report how that went with `finish_save`.
    Save,
}

impl DecryptionError {
    /// A notice for the user.
    pub fn message(&self) -> (r: String)
        ensures
            r@ == decryption_message(*self),
    {
        match self {
            DecryptionError::Malformed => "Format data enkripsi tidak valid.".to_owned(),
            DecryptionError::AuthFailed => "Gagal mendekripsi password.".to_owned(),
            DecryptionError::NotUtf8 => "Password terdekripsi bukan UTF-8 valid.".to_owned(),
        }
    }
}

pub open spec fn decryption_message(e: DecryptionError) -> Seq<char> {
    match e {
        DecryptionError::Malformed => "Format data enkripsi tidak valid."@,
        DecryptionError::AuthFailed => "Gagal mendekripsi password."@,
        DecryptionError::NotUtf8 => "Password terdekripsi bukan UTF-8 valid."@,
    }
}

impl ConfigError {
    /// A notice for the user.
    pub fn message(&self) -> (r: String)
        ensures
            r@ == config_message(*self),
    {
        match self {
            ConfigError::Missing => "Environment variable PASSWORD_MANAGER_KEY belum diset.".to_owned(),
            ConfigError::Empty => "PASSWORD_MANAGER_KEY tidak boleh kosong.".to_owned(),
        }
    }
}

pub open spec fn config_message(e: ConfigError) -> Seq<char> {
    match e {
        ConfigError::Missing => "Environment variable PASSWORD_MANAGER_KEY belum diset."@,
        ConfigError::Empty => "PASSWORD_MANAGER_KEY tidak boleh kosong."@,
    }
}

/// Number of stars that stand for a stored password of `n` bytes: at least
/// one, at most 32.
pub open spec fn mask_len(n: nat) -> nat {
    if n < 1 {
        1
    } else if n > 32 {
        32
    } else {
        n
    }
}

/// The stars shown in place of a stored password, one per byte within the
/// bounds of `mask_len`.
pub fn masked(password: &str) -> (r: String)
    ensures
        r@ == Seq::new(mask_len(password.spec_bytes().len()), |_i: int| '*'),
{
    let n = password.as_bytes().len();
    let k: usize = if n < 1 {
        1
    } else if n > 32 {
        32
    } else {
        n
    };
    let mut r = String::new();
    let mut i: usize = 0;
    while i < k
        invariant
            i <= k,
            k == mask_len(password.spec_bytes().len()),
            r@ == Seq::new(i as nat, |_i: int| '*'),
        decreases k - i,
    {
        push_char(&mut r, '*');
        assert(r@ =~= Seq::new((i + 1) as nat, |_i: int| '*'));
        i += 1;
    }
    r
}

impl AddEntryError {
    /// A notice for the user.
    pub fn message(&self) -> (r: String)
        ensures
            r@ == add_error_message(*self),
    {
        match self {
            AddEntryError::EmptyField => "Account atau password tidak boleh kosong.".to_owned(),
            AddEntryError::Encryption(_) => "Gagal mengenkripsi password.".to_owned(),
        }
    }
}

pub open spec fn add_error_message(e: AddEntryError) -> Seq<char> {
    match e {
        AddEntryError::EmptyField => "Account atau password tidak boleh kosong."@,
        AddEntryError::Encryption(_) => "Gagal mengenkripsi password."@,
    }
}

/// The notice that revealing the password of `e` under `key` shows.
pub open spec fn reveal_notice(key: Seq<u8>, e: (Seq<char>, Seq<char>)) -> (Seq<char>, FeedbackKind) {
    match decryption(key, e.1) {
        Ok(p) => ("Password untuk "@ + e.0 + ": "@ + p, FeedbackKind::Info),
        Err(x) => (decryption_message(x), FeedbackKind::Error),
    }
}

/// An input field after a key press while it is edited.
pub open spec fn edited(s: Seq<char>, key: KeyInput) -> Seq<char> {
    match key {
        KeyInput::Char(c) => s.push(c),
        KeyInput::Backspace => if s.len() > 0 {
            s.drop_last()
        } else {
            s
        },
        KeyInput::Esc => Seq::empty(),
        _ => s,
    }
}

/// Applies a key press to an input field being edited.
fn edit_field(s: &mut String, key: KeyInput)
    ensures
        final(s)@ == edited(old(s)@, key),
{
    match key {
        KeyInput::Char(c) => push_char(s, c),
        KeyInput::Backspace => {
            let cs = chars_of(s.as_str());
            if cs.len() > 0 {
                *s = string_of_range(&cs, 0, cs.len() - 1);
            }
        },
        KeyInput::Esc => {
            *s = String::new();
        },
        _ => {},
    }
}

/// The vault's state.
pub struct App {
    entries: Vec<Entry>,
    selected: usize,
    input_mode: InputMode,
    account_input: String,
    password_input: String,
    feedback: Option<Feedback>,
    cipher: CipherEngine,
}

impl App {
    pub closed spec fn entries_spec(&self) -> Seq<(Seq<char>, Seq<char>)> {
        entries_view(self.entries@)
    }

    pub closed spec fn selected_spec(&self) -> nat {
        self.selected as nat
    }

    pub closed spec fn mode_spec(&self) -> InputMode {
        self.input_mode
    }

    pub closed spec fn account_input_spec(&self) -> Seq<char> {
        self.account_input@
    }

    pub closed spec fn password_input_spec(&self) -> Seq<char> {
        self.password_input@
    }

    /// The last notice: its text and kind.
    pub closed spec fn feedback_spec(&self) -> Option<(Seq<char>, FeedbackKind)> {
        match self.feedback {
            Some(f) => Some((f.text@, f.kind)),
            None => None,
        }
    }

    /// The key that the vault seals under.
    pub closed spec fn key_spec(&self) -> Seq<u8> {
        self.cipher@
    }

    /// The selection points at an entry whenever there is one, and the engine
    /// holds a full key.
    pub closed spec fn wf(&self) -> bool {
        &&& self.cipher.wf()
        &&& if self.entries@.len() == 0 {
            self.selected == 0
        } else {
            self.selected < self.entries@.len()
        }
    }

    /// A vault on loaded entries, with the first one selected.
    pub fn new(entries: Vec<Entry>, cipher: CipherEngine) -> (r: App)
        requires
            cipher.wf(),
        ensures
            r.wf(),
            r.entries_spec() == entries_view(entries@),
            r.selected_spec() == 0,
            r.mode_spec() == InputMode::Normal,
            r.account_input_spec().len() == 0,
            r.password_input_spec().len() == 0,
            r.feedback_spec() is None,
            r.key_spec() == cipher@,
    {
        App {
            entries,
            selected: 0,
            input_mode: InputMode::Normal,
            account_input: String::new(),
            password_input: String::new(),
            feedback: None,
            cipher,
        }
    }

    /// The entries, in order.
    pub fn list_entries(&self) -> (r: &Vec<Entry>)
        ensures
            entries_view(r@) == self.entries_spec(),
    {
        &self.entries
    }

    /// Index of the selected entry.
    pub fn selected(&self) -> (r: usize)
        ensures
            r == self.selected_spec(),
    {
        self.selected
    }

    pub fn input_mode(&self) -> (r: InputMode)
        ensures
            r == self.mode_spec(),
    {
        self.input_mode
    }

    pub fn account_input(&self) -> (r: &str)
        ensures
            r@ == self.account_input_spec(),
    {
        self.account_input.as_str()
    }

    pub fn password_input(&self) -> (r: &str)
        ensures
            r@ == self.password_input_spec(),
    {
        self.password_input.as_str()
    }

    pub fn feedback(&self) -> (r: &Option<Feedback>)
        ensures
            match r {
                Some(f) => self.feedback_spec() == Some((f.text@, f.kind)),
                None => self.feedback_spec() is None,
            },
    {
        &self.feedback
    }

    /// Replaces the notice.
    pub fn set_feedback(&mut self, text: String, kind: FeedbackKind)
        ensures
            final(self).feedback_spec() == Some((text@, kind)),
            final(self).entries_spec() == old(self).entries_spec(),
            final(self).selected_spec() == old(self).selected_spec(),
            final(self).mode_spec() == old(self).mode_spec(),
            final(self).account_input_spec() == old(self).account_input_spec(),
            final(self).password_input_spec() == old(self).password_input_spec(),
            final(self).key_spec() == old(self).key_spec(),
            final(self).wf() == old(self).wf(),
    {
        self.feedback = Some(Feedback { text, kind });
    }

    /// Selects the next entry, wrapping from the last to the first.
    pub fn next(&mut self)
        requires
            old(self).wf(),
        ensures
            final(self).wf(),
            final(self).selected_spec() == if old(self).entries_spec().len() == 0 {
                0
            } else if old(self).selected_spec() + 1 < old(self).entries_spec().len() {
                old(self).selected_spec() + 1
            } else {
                0
            },
            final(self).entries_spec() == old(self).entries_spec(),
            final(self).mode_spec() == old(self).mode_spec(),
            final(self).account_input_spec() == old(self).account_input_spec(),
            final(self).password_input_spec() == old(self).password_input_spec(),
            final(self).feedback_spec() == old(self).feedback_spec(),
            final(self).key_spec() == old(self).key_spec(),
    {
        if self.entries.len() == 0 {
            return;
        }
        assert(self.entries_spec().len() == self.entries@.len());
        if self.selected < self.entries.len() - 1 {
            self.selected += 1;
        } else {
            self.selected = 0;
        }
    }

    /// Selects the previous entry, wrapping from the first to the last.
    pub fn previous(&mut self)
        requires
            old(self).wf(),
        ensures
            final(self).wf(),
            final(self).selected_spec() == if old(self).entries_spec().len() == 0 {
                0
            } else if old(self).selected_spec() == 0 {
                (old(self).entries_spec().len() - 1) as nat
            } else {
                (old(self).selected_spec() - 1) as nat
            },
            final(self).entries_spec() == old(self).entries_spec(),
            final(self).mode_spec() == old(self).mode_spec(),
            final(self).account_input_spec() == old(self).account_input_spec(),
            final(self).password_input_spec() == old(self).password_input_spec(),
            final(self).feedback_spec() == old(self).feedback_spec(),
            final(self).key_spec() == old(self).key_spec(),
    {
        if self.entries.len() == 0 {
            return;
        }
        assert(self.entries_spec().len() == self.entries@.len());
        if self.selected > 0 {
            self.selected -= 1;
        } else {
            self.selected = self.entries.len() - 1;
        }
    }

    /// Trims both values and, when neither is empty, seals the password and
    /// appends the entry; nothing changes otherwise.
    pub fn add_credential(&mut self, account: &str, password: &str) -> (r: Result<(), AddEntryError>)
        requires
            old(self).wf(),
        ensures
            final(self).wf(),
            trimmed(account@).len() == 0 || trimmed(password@).len() == 0 ==> r == Err::<(), AddEntryError>(AddEntryError::EmptyField),
            trimmed(account@).len() > 0 && trimmed(password@).len() > 0 ==> (r is Ok <==> sealable(trimmed(password@))),
            r is Err ==> {
                &&& r == Err::<(), AddEntryError>(
                    if trimmed(account@).len() == 0 || trimmed(password@).len() == 0 {
                        AddEntryError::EmptyField
                    } else {
                        AddEntryError::Encryption(EncryptionError::TooLong)
                    },
                )
                &&& final(self).entries_spec() == old(self).entries_spec()
            },
            r is Ok ==> {
                let es = final(self).entries_spec();
                let e = es.last();
                &&& es.len() == old(self).entries_spec().len() + 1
                &&& es.drop_last() == old(self).entries_spec()
                &&& e.0 == trimmed(account@)
                &&& exists|n: Seq<u8>| n.len() == NONCE_LEN && e.1 == sealed_payload(old(self).key_spec(), n, trimmed(password@))
                &&& decryption(old(self).key_spec(), e.1) == Ok::<_, DecryptionError>(trimmed(password@))
            },
            final(self).selected_spec() == old(self).selected_spec(),
            final(self).mode_spec() == old(self).mode_spec(),
            final(self).account_input_spec() == old(self).account_input_spec(),
            final(self).password_input_spec() == old(self).password_input_spec(),
            final(self).feedback_spec() == old(self).feedback_spec(),
            final(self).key_spec() == old(self).key_spec(),
    {
        let account = trim(account);
        let password = trim(password);
        if account.is_empty() || password.is_empty() {
            return Err(AddEntryError::EmptyField);
        }
        let sealed = match self.cipher.encrypt_password(password) {
            Ok(s) => s,
            Err(e) => return Err(AddEntryError::Encryption(e)),
        };
        let ghost before = self.entries@;
        self.entries.push(Entry { account: account.to_owned(), password: sealed });
        assert(entries_view(self.entries@).drop_last() =~= entries_view(before));
        Ok(())
    }

    /// Adds the entry typed into the two input fields, and clears them when
    /// it was added.
    pub fn add_entry(&mut self) -> (r: Result<(), AddEntryError>)
        requires
            old(self).wf(),
        ensures
            final(self).wf(),
            ({
                let a = old(self).account_input_spec();
                let p = old(self).password_input_spec();
                &&& trimmed(a).len() == 0 || trimmed(p).len() == 0 ==> r == Err::<(), AddEntryError>(AddEntryError::EmptyField)
                &&& trimmed(a).len() > 0 && trimmed(p).len() > 0 ==> (r is Ok <==> sealable(trimmed(p)))
                &&& r is Ok ==> {
                    let es = final(self).entries_spec();
                    let e = es.last();
                    &&& es.len() == old(self).entries_spec().len() + 1
                    &&& es.drop_last() == old(self).entries_spec()
                    &&& e.0 == trimmed(a)
                    &&& exists|n: Seq<u8>| n.len() == NONCE_LEN && e.1 == sealed_payload(old(self).key_spec(), n, trimmed(p))
                    &&& decryption(old(self).key_spec(), e.1) == Ok::<_, DecryptionError>(trimmed(p))
                    &&& final(self).account_input_spec().len() == 0
                    &&& final(self).password_input_spec().len() == 0
                }
            }),
            r is Err ==> {
                &&& r == Err::<(), AddEntryError>(
                    if trimmed(old(self).account_input_spec()).len() == 0 || trimmed(old(self).password_input_spec()).len() == 0 {
                        AddEntryError::EmptyField
                    } else {
                        AddEntryError::Encryption(EncryptionError::TooLong)
                    },
                )
                &&& final(self).entries_spec() == old(self).entries_spec()
                &&& final(self).account_input_spec() == old(self).account_input_spec()
                &&& final(self).password_input_spec() == old(self).password_input_spec()
            },
            final(self).selected_spec() == old(self).selected_spec(),
            final(self).mode_spec() == old(self).mode_spec(),
            final(self).feedback_spec() == old(self).feedback_spec(),
            final(self).key_spec() == old(self).key_spec(),
    {
        let account = self.account_input.clone();
        let password = self.password_input.clone();
        let r = self.add_credential(account.as_str(), password.as_str());
        if r.is_ok() {
            self.account_input = String::new();
            self.password_input = String::new();
        }
        r
    }

    /// Opens the password of the entry at `index`; `None` when there is no
    /// such entry.
    pub fn reveal_password(&self, index: usize) -> (r: Option<Result<String, DecryptionError>>)
        requires
            self.wf(),
        ensures
            index >= self.entries_spec().len() ==> r is None,
            index < self.entries_spec().len() ==> match decryption(self.key_spec(), self.entries_spec()[index as int].1) {
                Ok(p) => r matches Some(Ok(s)) && s@ == p,
                Err(e) => r matches Some(Err(x)) && x == e,
            },
    {
        if index >= self.entries.len() {
            return None;
        }
        Some(self.cipher.decrypt_password(self.entries[index].password.as_str()))
    }

    /// The notice for the password of the selected entry, or nothing when
    /// there is no entry.
    pub fn reveal_selected(&mut self)
        requires
            old(self).wf(),
        ensures
            final(self).wf(),
            old(self).entries_spec().len() == 0 ==> final(self).feedback_spec() == old(self).feedback_spec(),
            old(self).entries_spec().len() > 0 ==> final(self).feedback_spec() == Some(
                reveal_notice(old(self).key_spec(), old(self).entries_spec()[old(self).selected_spec() as int]),
            ),
            final(self).entries_spec() == old(self).entries_spec(),
            final(self).selected_spec() == old(self).selected_spec(),
            final(self).mode_spec() == old(self).mode_spec(),
            final(self).account_input_spec() == old(self).account_input_spec(),
            final(self).password_input_spec() == old(self).password_input_spec(),
            final(self).key_spec() == old(self).key_spec(),
    {
        assert(self.entries_spec().len() == self.entries@.len());
        if self.selected >= self.entries.len() {
            return;
        }
        let e = &self.entries[self.selected];
        match self.cipher.decrypt_password(e.password.as_str()) {
            Ok(plain) => {
                let mut text = "Password untuk ".to_owned();
                append_str(&mut text, e.account.as_str());
                append_str(&mut text, ": ");
                append_str(&mut text, plain.as_str());
                self.set_feedback(text, FeedbackKind::Info);
            },
            Err(err) => {
                let text = err.message();
                self.set_feedback(text, FeedbackKind::Error);
            },
        }
    }

    /// Handles one key press and tells the front end what to do next.
    pub fn handle_key(&mut self, key: KeyInput) -> (r: Action)
        requires
            old(self).wf(),
        ensures
            final(self).wf(),
            final(self).key_spec() == old(self).key_spec(),
            r == Action::Quit <==> old(self).mode_spec() == InputMode::Normal && key == KeyInput::Char('q'),
            old(self).mode_spec() == InputMode::Normal ==> {
                &&& final(self).account_input_spec() == old(self).account_input_spec()
                &&& final(self).password_input_spec() == old(self).password_input_spec()
                &&& r != Action::Save
                &&& final(self).entries_spec() == old(self).entries_spec()
                &&& final(self).mode_spec() == if key == KeyInput::Char('a') {
                    InputMode::EditingAccount
                } else {
                    InputMode::Normal
                }
                &&& final(self).selected_spec() == if old(self).entries_spec().len() == 0 {
                    0
                } else if key == KeyInput::Down {
                    if old(self).selected_spec() + 1 < old(self).entries_spec().len() {
                        old(self).selected_spec() + 1
                    } else {
                        0
                    }
                } else if key == KeyInput::Up {
                    if old(self).selected_spec() == 0 {
                        (old(self).entries_spec().len() - 1) as nat
                    } else {
                        (old(self).selected_spec() - 1) as nat
                    }
                } else {
                    old(self).selected_spec()
                }
                &&& final(self).feedback_spec() == if key == KeyInput::Char('v') && old(self).entries_spec().len() > 0 {
                    Some(reveal_notice(old(self).key_spec(), old(self).entries_spec()[old(self).selected_spec() as int]))
                } else {
                    old(self).feedback_spec()
                }
            },
            old(self).mode_spec() == InputMode::EditingAccount ==> {
                &&& r == Action::Continue
                &&& final(self).account_input_spec() == if key == KeyInput::Enter {
                    old(self).account_input_spec()
                } else {
                    edited(old(self).account_input_spec(), key)
                }
                &&& final(self).mode_spec() == if key == KeyInput::Esc {
                    InputMode::Normal
                } else if key == KeyInput::Enter {
                    InputMode::EditingPassword
                } else {
                    InputMode::EditingAccount
                }
                &&& final(self).password_input_spec() == old(self).password_input_spec()
                &&& final(self).entries_spec() == old(self).entries_spec()
                &&& final(self).selected_spec() == old(self).selected_spec()
                &&& final(self).feedback_spec() == old(self).feedback_spec()
            },
            old(self).mode_spec() == InputMode::EditingPassword && key != KeyInput::Enter ==> {
                &&& r == Action::Continue
                &&& final(self).password_input_spec() == edited(old(self).password_input_spec(), key)
                &&& final(self).mode_spec() == if key == KeyInput::Esc {
                    InputMode::Normal
                } else {
                    InputMode::EditingPassword
                }
                &&& final(self).account_input_spec() == old(self).account_input_spec()
                &&& final(self).entries_spec() == old(self).entries_spec()
                &&& final(self).selected_spec() == old(self).selected_spec()
                &&& final(self).feedback_spec() == old(self).feedback_spec()
            },
            old(self).mode_spec() == InputMode::EditingPassword && key == KeyInput::Enter ==> {
                let a = old(self).account_input_spec();
                let p = old(self).password_input_spec();
                &&& final(self).selected_spec() == old(self).selected_spec()
                &&& (r == Action::Save <==> trimmed(a).len() > 0 && trimmed(p).len() > 0 && sealable(trimmed(p)))
                &&& r == Action::Save ==> {
                    let es = final(self).entries_spec();
                    let e = es.last();
                    &&& final(self).mode_spec() == InputMode::Normal
                    &&& es.len() == old(self).entries_spec().len() + 1
                    &&& es.drop_last() == old(self).entries_spec()
                    &&& e.0 == trimmed(a)
                    &&& decryption(old(self).key_spec(), e.1) == Ok::<_, DecryptionError>(trimmed(p))
                    &&& final(self).account_input_spec().len() == 0
                    &&& final(self).password_input_spec().len() == 0
                    &&& final(self).feedback_spec() == old(self).feedback_spec()
                }
                &&& r != Action::Save ==> {
                    &&& r == Action::Continue
                    &&& final(self).mode_spec() == InputMode::EditingPassword
                    &&& final(self).entries_spec() == old(self).entries_spec()
                    &&& final(self).account_input_spec() == a
                    &&& final(self).password_input_spec() == p
                    &&& final(self).feedback_spec() == Some((
                        if trimmed(a).len() == 0 || trimmed(p).len() == 0 {
                            add_error_message(AddEntryError::EmptyField)
                        } else {
                            add_error_message(AddEntryError::Encryption(EncryptionError::TooLong))
                        },
                        FeedbackKind::Error,
                    ))
                }
            },
    {
        match self.input_mode {
            InputMode::Normal => {
                match key {
                    KeyInput::Char('q') => return Action::Quit,
                    KeyInput::Down => self.next(),
                    KeyInput::Up => self.previous(),
                    KeyInput::Char('a') => {
                        self.input_mode = InputMode::EditingAccount;
                    },
                    KeyInput::Char('v') => self.reveal_selected(),
                    _ => {},
                }
                Action::Continue
            },
            InputMode::EditingAccount => {
                match key {
                    KeyInput::Enter => {
                        self.input_mode = InputMode::EditingPassword;
                    },
                    _ => {
                        edit_field(&mut self.account_input, key);
                        if key == KeyInput::Esc {
                            self.input_mode = InputMode::Normal;
                        }
                    },
                }
                Action::Continue
            },
            InputMode::EditingPassword => {
                match key {
                    KeyInput::Enter => match self.add_entry() {
                        Ok(()) => {
                            self.input_mode = InputMode::Normal;
                            Action::Save
                        },
                        Err(e) => {
                            let text = e.message();
                            self.set_feedback(text, FeedbackKind::Error);
                            Action::Continue
                        },
                    },
                    _ => {
                        edit_field(&mut self.password_input, key);
                        if key == KeyInput::Esc {
                            self.input_mode = InputMode::Normal;
                        }
                        Action::Continue
                    },
                }
            },
        }
    }

    /// Records how writing the entries went after an entry was added: `None`
    /// for success, else the reason it failed.
    pub fn finish_save(&mut self, error: Option<&str>)
        ensures
            final(self).feedback_spec() == Some(match error {
                None => ("Entri berhasil ditambahkan dan password terenkripsi."@, FeedbackKind::Success),
                Some(e) => ("Error menyimpan entri: "@ + e@, FeedbackKind::Error),
            }),
            final(self).entries_spec() == old(self).entries_spec(),
            final(self).selected_spec() == old(self).selected_spec(),
            final(self).mode_spec() == old(self).mode_spec(),
            final(self).account_input_spec() == old(self).account_input_spec(),
            final(self).password_input_spec() == old(self).password_input_spec(),
            final(self).key_spec() == old(self).key_spec(),
            final(self).wf() == old(self).wf(),
    {
        match error {
            None => {
                let text = "Entri berhasil ditambahkan dan password terenkripsi.".to_owned();
                self.set_feedback(text, FeedbackKind::Success);
            },
            Some(e) => {
                let mut text = "Error menyimpan entri: ".to_owned();
                append_str(&mut text, e);
                self.set_feedback(text, FeedbackKind::Error);
            },
        }
    }
}

} // verus!
