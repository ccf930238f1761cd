//! The backing file's text: one `account,password` record per line. Loading
//! parses it and seals every legacy plain value; saving writes it back.
use vstd::prelude::*;

use crate::codec::{encrypted_shape, is_base64_symbol, payload_chars, NONCE_LEN, PAYLOAD_SEPARATOR};
use crate::crypto::{decryption, sealable, sealed_payload, CipherEngine, DecryptionError, EncryptionError};
use crate::text::{
    append_str, chars_of, free_of, lemma_split_first_concat, lemma_split_first_parts, push_char,
    split_first, split_once, string_of_range,
};

verus! {

/// Separator between account and password on a line.
pub const FIELD_SEPARATOR: char = ',';

/// One stored credential.
#[derive(Clone, Debug)]
pub struct Entry {
    pub account: String,
    pub password: String,
}

impl View for Entry {
    type V = (Seq<char>, Seq<char>);

    open spec fn view(&self) -> (Seq<char>, Seq<char>) {
        (self.account@, self.password@)
    }
}

/// The views of a list of entries.
pub open spec fn entries_view(es: Seq<Entry>) -> Seq<(Seq<char>, Seq<char>)> {
    es.map_values(|e: Entry| e@)
}

/// A line as read: without a final `\r` when a `\n` ended it.
pub open spec fn strip_cr(l: Seq<char>) -> Seq<char> {
    if l.len() > 0 && l.last() == '\r' {
        l.drop_last()
    } else {
        l
    }
}

/// The lines that `s` completes, and what follows the last `\n`.
pub open spec fn lines_acc(s: Seq<char>) -> (Seq<Seq<char>>, Seq<char>)
    decreases s.len(),
{
    if s.len() == 0 {
        (Seq::empty(), Seq::empty())
    } else {
        let (ls, cur) = lines_acc(s.drop_last());
        if s.last() == '\n' {
            (ls.push(strip_cr(cur)), Seq::empty())
        } else {
            (ls, cur.push(s.last()))
        }
    }
}

/// The lines of a text, each without its line ending; a last line need not
/// end in `\n`.
pub open spec fn lines_of(s: Seq<char>) -> Seq<Seq<char>> {
    let (ls, cur) = lines_acc(s);
    if cur.len() == 0 {
        ls
    } else {
        ls.push(cur)
    }
}

/// The `(account, raw password)` records of some lines: each line cut at its
/// first separator; a line without one is skipped.
pub open spec fn records(ls: Seq<Seq<char>>) -> Seq<(Seq<char>, Seq<char>)>
    decreases ls.len(),
{
    if ls.len() == 0 {
        Seq::empty()
    } else {
        let prev = records(ls.drop_last());
        match split_first(ls.last(), FIELD_SEPARATOR) {
            Some(p) => prev.push(p),
            None => prev,
        }
    }
}

/// The records of a file's text.
pub open spec fn file_records(s: Seq<char>) -> Seq<(Seq<char>, Seq<char>)> {
    records(lines_of(s))
}

/// The record needs sealing at load time.
pub open spec fn is_legacy(rec: (Seq<char>, Seq<char>)) -> bool {
    !encrypted_shape(rec.1)
}

/// `e` is what loading keeps of `rec` under `key`: the account as read, and
/// the raw password either kept (sealed shape) or sealed under some nonce.
pub open spec fn loaded_from(key: Seq<u8>, rec: (Seq<char>, Seq<char>), e: (Seq<char>, Seq<char>)) -> bool {
    &&& e.0 == rec.0
    &&& if is_legacy(rec) {
        &&& exists|n: Seq<u8>| n.len() == NONCE_LEN && e.1 == sealed_payload(key, n, rec.1)
        &&& payload_chars(e.1)
        &&& encrypted_shape(e.1)
        &&& decryption(key, e.1) == Ok::<_, DecryptionError>(rec.1)
    } else {
        e.1 == rec.1
    }
}

/// The text that saving writes for some entries.
pub open spec fn file_text(es: Seq<(Seq<char>, Seq<char>)>) -> Seq<char>
    decreases es.len(),
{
    if es.len() == 0 {
        Seq::empty()
    } else {
        file_text(es.drop_last()) + es.last().0 + seq![FIELD_SEPARATOR] + es.last().1 + seq!['\n']
    }
}

/// The records of the first `j` lines begin the records of all of them.
pub proof fn lemma_records_prefix(ls: Seq<Seq<char>>, j: int)
    requires
        0 <= j <= ls.len(),
    ensures
        records(ls.take(j)).len() <= records(ls).len(),
        forall|k: int| 0 <= k < records(ls.take(j)).len() ==> #[trigger] records(ls.take(j))[k] == records(ls)[k],
    decreases ls.len(),
{
    if j == ls.len() {
        assert(ls.take(j) =~= ls);
    } else {
        let d = ls.drop_last();
        assert(d.take(j) =~= ls.take(j));
        lemma_records_prefix(d, j);
    }
}

/// Splits a text into its lines.
pub fn split_lines(text: &str) -> (r: Vec<String>)
    ensures
        r@.len() == lines_of(text@).len(),
        forall|i: int| 0 <= i < r@.len() ==> #[trigger] r@[i]@ == lines_of(text@)[i],
{
    let cs = chars_of(text);
    let mut lines: Vec<String> = Vec::new();
    let mut cur: Vec<char> = Vec::new();
    let mut i: usize = 0;
    while i < cs.len()
        invariant
            i <= cs.len(),
            cs@ == text@,
            lines@.len() == lines_acc(cs@.take(i as int)).0.len(),
            forall|k: int| 0 <= k < lines@.len() ==> #[trigger] lines@[k]@ == lines_acc(cs@.take(i as int)).0[k],
            cur@ == lines_acc(cs@.take(i as int)).1,
        decreases cs.len() - i,
    {
        let ghost prev = cs@.take(i as int);
        assert(cs@.take(i + 1).drop_last() =~= prev);
        let c = cs[i];
        if c == '\n' {
            let n = cur.len();
            let end = if n > 0 && cur[n - 1] == '\r' { n - 1 } else { n };
            let line = string_of_range(&cur, 0, end);
            assert(cur@.subrange(0, end as int) =~= strip_cr(cur@));
            lines.push(line);
            cur = Vec::new();
        } else {
            cur.push(c);
        }
        i += 1;
    }
    assert(cs@.take(cs.len() as int) =~= text@);
    if cur.len() > 0 {
        let line = string_of_range(&cur, 0, cur.len());
        assert(cur@.subrange(0, cur.len() as int) =~= cur@);
        lines.push(line);
    }
    lines
}

/// Reads a file's text into entries, sealing every legacy plain password;
/// the flag tells whether any was sealed.
pub fn load_entries(text: &str, cipher: &CipherEngine) -> (r: Result<(Vec<Entry>, bool), EncryptionError>)
    requires
        cipher.wf(),
    ensures
        r is Ok <==> forall|i: int| 0 <= i < file_records(text@).len() && is_legacy(
            #[trigger] file_records(text@)[i],
        ) ==> sealable(file_records(text@)[i].1),
        r matches Ok((es, migrated)) ==> {
            &&& es@.len() == file_records(text@).len()
            &&& forall|i: int| 0 <= i < es@.len() ==> loaded_from(cipher@, file_records(text@)[i], #[trigger] es@[i]@)
            &&& migrated == exists|i: int| 0 <= i < file_records(text@).len() && is_legacy(#[trigger] file_records(text@)[i])
        },
{
    let lines = split_lines(text);
    let ghost ls = lines_of(text@);
    let mut entries: Vec<Entry> = Vec::new();
    let mut migrated = false;
    let mut i: usize = 0;
    while i < lines.len()
        invariant
            i <= lines@.len() == ls.len(),
            ls == lines_of(text@),
            cipher.wf(),
            forall|k: int| 0 <= k < lines@.len() ==> #[trigger] lines@[k]@ == ls[k],
            entries@.len() == records(ls.take(i as int)).len(),
            forall|k: int| 0 <= k < entries@.len() ==> loaded_from(cipher@, records(ls.take(i as int))[k], #[trigger] entries@[k]@),
            forall|k: int| 0 <= k < entries@.len() && is_legacy(#[trigger] records(ls.take(i as int))[k])
                ==> sealable(records(ls.take(i as int))[k].1),
            migrated == exists|k: int| 0 <= k < entries@.len() && is_legacy(#[trigger] records(ls.take(i as int))[k]),
        decreases lines@.len() - i,
    {
        let ghost before = records(ls.take(i as int));
        assert(ls.take(i + 1).drop_last() =~= ls.take(i as int));
        assert(ls.take(i + 1).last() == ls[i as int]);
        match split_once(lines[i].as_str(), FIELD_SEPARATOR) {
            Some((account, raw)) => {
                let ghost rec = (account@, raw@);
                assert(records(ls.take(i + 1)) == before.push(rec));
                let password = if crate::codec::is_encrypted_format(raw.as_str()) {
                    raw
                } else {
                    match cipher.encrypt_password(raw.as_str()) {
                        Ok(p) => {
                            migrated = true;
                            p
                        },
                        Err(e) => {
                            proof {
                                lemma_records_prefix(ls, i + 1);
                                let j = before.len() as int;
                                assert(records(ls.take(i + 1))[j] == rec);
                                assert(file_records(text@)[j] == rec);
                            }
                            return Err(e);
                        },
                    }
                };
                entries.push(Entry { account, password });
                proof {
                    let after = records(ls.take(i + 1));
                    assert(after[before.len() as int] == rec);
                    assert forall|k: int| 0 <= k < entries@.len() implies loaded_from(cipher@, after[k], #[trigger] entries@[k]@) by {
                        if k < before.len() {
                            assert(after[k] == before[k]);
                        }
                    }
                    assert forall|k: int| 0 <= k < entries@.len() && is_legacy(#[trigger] after[k]) implies sealable(after[k].1) by {
                        if k < before.len() {
                            assert(after[k] == before[k]);
                        }
                    }
                    if migrated {
                        if is_legacy(rec) {
                            assert(is_legacy(after[before.len() as int]));
                        } else {
                            let k = choose|k: int| 0 <= k < before.len() && is_legacy(#[trigger] before[k]);
                            assert(after[k] == before[k]);
                        }
                    } else {
                        assert forall|k: int| 0 <= k < entries@.len() implies !is_legacy(#[trigger] after[k]) by {
                            if k < before.len() {
                                assert(after[k] == before[k]);
                            }
                        }
                    }
                }
            },
            None => {
                assert(records(ls.take(i + 1)) == before);
            },
        }
        i += 1;
    }
    assert(ls.take(lines@.len() as int) =~= ls);
    Ok((entries, migrated))
}

/// The text that saving writes: one `account,password` line per entry.
pub fn render_entries(entries: &Vec<Entry>) -> (r: String)
    ensures
        r@ == file_text(entries_view(entries@)),
{
    let mut r = String::new();
    let mut i: usize = 0;
    while i < entries.len()
        invariant
            i <= entries@.len(),
            r@ == file_text(entries_view(entries@.take(i as int))),
        decreases entries@.len() - i,
    {
        let ghost es = entries_view(entries@.take(i + 1));
        assert(es.drop_last() =~= entries_view(entries@.take(i as int)));
        assert(es.last() == entries@[i as int]@);
        append_str(&mut r, entries[i].account.as_str());
        push_char(&mut r, FIELD_SEPARATOR);
        append_str(&mut r, entries[i].password.as_str());
        push_char(&mut r, '\n');
        i += 1;
    }
    assert(entries@.take(entries@.len() as int) =~= entries@);
    r
}

/// The line that saving writes for an entry, without its `\n`.
pub open spec fn line_of(e: (Seq<char>, Seq<char>)) -> Seq<char> {
    e.0 + seq![FIELD_SEPARATOR] + e.1
}

/// An entry that saving and loading carry through unchanged: no separator or
/// line break in the account, no line break in the password, and no `\r`
/// that a line ending would swallow.
pub open spec fn storable(e: (Seq<char>, Seq<char>)) -> bool {
    &&& free_of(e.0, FIELD_SEPARATOR)
    &&& free_of(e.0, '\n')
    &&& free_of(e.1, '\n')
    &&& !(e.1.len() > 0 && e.1.last() == '\r')
}

/// The result of loading `text` under `key` is `es`, with flag `migrated`.
pub open spec fn load_outcome(
    key: Seq<u8>,
    text: Seq<char>,
    es: Seq<(Seq<char>, Seq<char>)>,
    migrated: bool,
) -> bool {
    let recs = file_records(text);
    &&& es.len() == recs.len()
    &&& forall|i: int| 0 <= i < es.len() ==> loaded_from(key, recs[i], #[trigger] es[i])
    &&& migrated == exists|i: int| 0 <= i < recs.len() && is_legacy(#[trigger] recs[i])
}

/// Appending characters with no line break extends the current line.
proof fn lemma_lines_acc_append(s: Seq<char>, l: Seq<char>)
    requires
        free_of(l, '\n'),
    ensures
        lines_acc(s + l) == (lines_acc(s).0, lines_acc(s).1 + l),
    decreases l.len(),
{
    if l.len() == 0 {
        assert(s + l =~= s);
        assert(lines_acc(s).1 + l =~= lines_acc(s).1);
    } else {
        lemma_lines_acc_append(s, l.drop_last());
        assert((s + l).drop_last() =~= s + l.drop_last());
        assert((s + l).last() == l.last());
        assert(lines_acc(s).1 + l.drop_last() + seq![l.last()] =~= lines_acc(s).1 + l);
        assert((lines_acc(s).1 + l.drop_last()).push(l.last()) =~= lines_acc(s).1 + l);
    }
}

/// The lines of a saved text are the entries' lines.
proof fn lemma_lines_of_file_text(es: Seq<(Seq<char>, Seq<char>)>)
    requires
        forall|i: int| 0 <= i < es.len() ==> storable(#[trigger] es[i]),
    ensures
        lines_acc(file_text(es)).0 == es.map_values(|e: (Seq<char>, Seq<char>)| line_of(e)),
        lines_acc(file_text(es)).1.len() == 0,
    decreases es.len(),
{
    if es.len() > 0 {
        let prev = es.drop_last();
        let e = es.last();
        assert(storable(es[es.len() - 1]));
        lemma_lines_of_file_text(prev);
        let t = file_text(prev);
        let l = line_of(e);
        assert(free_of(l, '\n')) by {
            assert forall|j: int| 0 <= j < l.len() implies l[j] != '\n' by {
                if j < e.0.len() {
                    assert(l[j] == e.0[j]);
                } else if j > e.0.len() {
                    assert(l[j] == e.1[j - e.0.len() - 1]);
                }
            }
        }
        lemma_lines_acc_append(t, l);
        assert(file_text(es) =~= (t + l).push('\n'));
        assert((t + l).push('\n').drop_last() =~= t + l);
        assert(lines_acc(t).1 + l =~= l);
        assert(strip_cr(l) == l);
        assert(es.map_values(|e: (Seq<char>, Seq<char>)| line_of(e)) =~= prev.map_values(
            |e: (Seq<char>, Seq<char>)| line_of(e),
        ).push(l));
    }
}

/// Cutting the entries' lines at their first separator gives the entries.
proof fn lemma_records_of_lines(es: Seq<(Seq<char>, Seq<char>)>)
    requires
        forall|i: int| 0 <= i < es.len() ==> storable(#[trigger] es[i]),
    ensures
        records(es.map_values(|e: (Seq<char>, Seq<char>)| line_of(e))) == es,
    decreases es.len(),
{
    if es.len() > 0 {
        let ls = es.map_values(|e: (Seq<char>, Seq<char>)| line_of(e));
        let prev = es.drop_last();
        assert(storable(es[es.len() - 1]));
        assert(ls.drop_last() =~= prev.map_values(|e: (Seq<char>, Seq<char>)| line_of(e)));
        lemma_records_of_lines(prev);
        let e = es.last();
        assert(!e.0.contains(FIELD_SEPARATOR));
        lemma_split_first_concat(e.0, FIELD_SEPARATOR, e.1);
        assert(ls.last() == line_of(e));
        assert(prev.push(e) =~= es);
    }
}

/// Saving entries that loading carries through unchanged, then reading the
/// text back, gives the same records.
pub proof fn lemma_save_then_read(es: Seq<(Seq<char>, Seq<char>)>)
    requires
        forall|i: int| 0 <= i < es.len() ==> storable(#[trigger] es[i]),
    ensures
        file_records(file_text(es)) == es,
{
    lemma_lines_of_file_text(es);
    lemma_records_of_lines(es);
}

/// No line of a text holds a line break.
proof fn lemma_lines_acc_free(s: Seq<char>)
    ensures
        forall|k: int| 0 <= k < lines_acc(s).0.len() ==> free_of(#[trigger] lines_acc(s).0[k], '\n'),
        free_of(lines_acc(s).1, '\n'),
    decreases s.len(),
{
    if s.len() > 0 {
        lemma_lines_acc_free(s.drop_last());
        let (ls, cur) = lines_acc(s.drop_last());
        if s.last() == '\n' {
            let st = strip_cr(cur);
            assert forall|j: int| 0 <= j < st.len() implies st[j] != '\n' by {
                assert(st[j] == cur[j]);
            }
            assert forall|k: int| 0 <= k < ls.push(st).len() implies free_of(#[trigger] ls.push(st)[k], '\n') by {
                if k < ls.len() {
                    assert(ls.push(st)[k] == ls[k]);
                }
            }
        } else {
            let c2 = cur.push(s.last());
            assert forall|j: int| 0 <= j < c2.len() implies c2[j] != '\n' by {
                if j < cur.len() {
                    assert(c2[j] == cur[j]);
                }
            }
        }
    }
}

/// Every record of a text has no separator or line break in its account and
/// no line break in its password.
proof fn lemma_file_records_free(text: Seq<char>)
    ensures
        forall|i: int| 0 <= i < file_records(text).len() ==> {
            let r = #[trigger] file_records(text)[i];
            &&& free_of(r.0, FIELD_SEPARATOR)
            &&& free_of(r.0, '\n')
            &&& free_of(r.1, '\n')
        },
{
    lemma_lines_acc_free(text);
    let ls = lines_of(text);
    assert forall|k: int| 0 <= k < ls.len() implies free_of(#[trigger] ls[k], '\n') by {
        let (l0, cur) = lines_acc(text);
        if cur.len() > 0 && k == l0.len() {
            assert(ls[k] == cur);
        } else {
            assert(ls[k] == l0[k]);
        }
    }
    lemma_records_free(ls);
}

proof fn lemma_records_free(ls: Seq<Seq<char>>)
    requires
        forall|k: int| 0 <= k < ls.len() ==> free_of(#[trigger] ls[k], '\n'),
    ensures
        forall|i: int| 0 <= i < records(ls).len() ==> {
            let r = #[trigger] records(ls)[i];
            &&& free_of(r.0, FIELD_SEPARATOR)
            &&& free_of(r.0, '\n')
            &&& free_of(r.1, '\n')
        },
    decreases ls.len(),
{
    if ls.len() > 0 {
        let d = ls.drop_last();
        assert forall|k: int| 0 <= k < d.len() implies free_of(#[trigger] d[k], '\n') by {
            assert(d[k] == ls[k]);
        }
        lemma_records_free(d);
        assert(free_of(ls[ls.len() - 1], '\n'));
        lemma_split_first_parts(ls.last(), FIELD_SEPARATOR, '\n');
        let prev = records(d);
        match split_first(ls.last(), FIELD_SEPARATOR) {
            Some(p) => {
                assert forall|i: int| 0 <= i < prev.push(p).len() implies {
                    let r = #[trigger] prev.push(p)[i];
                    &&& free_of(r.0, FIELD_SEPARATOR)
                    &&& free_of(r.0, '\n')
                    &&& free_of(r.1, '\n')
                } by {
                    if i < prev.len() {
                        assert(prev.push(p)[i] == prev[i]);
                    }
                }
            },
            None => {},
        }
    }
}

/// Loading a text whose records are all legacy plain values seals them all;
/// writing what was loaded and loading that again seals nothing and gives
/// back the same entries, which open to the plain values first read.
pub proof fn lemma_migration_idempotent(
    key: Seq<u8>,
    text: Seq<char>,
    es: Seq<(Seq<char>, Seq<char>)>,
    migrated: bool,
    es2: Seq<(Seq<char>, Seq<char>)>,
    migrated2: bool,
)
    requires
        file_records(text).len() > 0,
        forall|i: int| 0 <= i < file_records(text).len() ==> is_legacy(#[trigger] file_records(text)[i]),
        load_outcome(key, text, es, migrated),
        load_outcome(key, file_text(es), es2, migrated2),
    ensures
        migrated,
        !migrated2,
        es2 == es,
        forall|i: int| 0 <= i < es2.len() ==> decryption(key, (#[trigger] es2[i]).1)
            == Ok::<_, DecryptionError>(file_records(text)[i].1),
{
    let recs = file_records(text);
    assert(is_legacy(recs[0]));
    lemma_file_records_free(text);
    assert forall|i: int| 0 <= i < es.len() implies storable(#[trigger] es[i]) by {
        assert(loaded_from(key, recs[i], es[i]));
        assert(is_legacy(recs[i]));
        let p = es[i].1;
        assert(free_of(p, '\n')) by {
            assert forall|j: int| 0 <= j < p.len() implies p[j] != '\n' by {
                assert(is_base64_symbol(p[j]) || p[j] == PAYLOAD_SEPARATOR);
            }
        }
        if p.len() > 0 {
            assert(is_base64_symbol(p[p.len() - 1]) || p[p.len() - 1] == PAYLOAD_SEPARATOR);
        }
    }
    lemma_save_then_read(es);
    let recs2 = file_records(file_text(es));
    assert(recs2 == es);
    assert forall|i: int| 0 <= i < recs2.len() implies !is_legacy(#[trigger] recs2[i]) by {
        assert(loaded_from(key, recs[i], es[i]));
    }
    assert forall|i: int| 0 <= i < es2.len() implies #[trigger] es2[i] == es[i] by {
        assert(loaded_from(key, recs2[i], es2[i]));
        assert(!is_legacy(recs2[i]));
    }
    assert(es2 =~= es);
    assert forall|i: int| 0 <= i < es2.len() implies decryption(key, (#[trigger] es2[i]).1)
        == Ok::<_, DecryptionError>(recs[i].1) by {
        assert(es2[i] == es[i]);
        assert(loaded_from(key, recs[i], es[i]));
    }
}

} // verus!
