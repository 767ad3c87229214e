//! Crash-recovery autosaves: periodic snapshots of unsaved documents in a
//! dedicated directory, named by a per-tab UUID, plus a small sidecar
//! remembering where the document really lives. This module names those
//! files, recognizes a snapshot by its file name, and orders what a scan
//! found.

use std::path::PathBuf;

use uuid::Uuid;
use vstd::prelude::*;

use crate::strings::push_char;

verus! {

#[verifier::external_type_specification]
#[verifier::external_body]
pub struct ExPathBuf(PathBuf);

/// Sidecar data for one autosave: where the document should be saved on a
/// plain "save" after recovery, and the tab label to show.
#[derive(Clone, Debug)]
pub struct AutosaveMeta {
    pub original_path: Option<PathBuf>,
    pub label: String,
}

impl Default for AutosaveMeta {
    /// No original path and an empty label.
    fn default() -> (m: AutosaveMeta)
        ensures
            m.original_path is None,
            m.label@ == Seq::<char>::empty(),
    {
        AutosaveMeta { original_path: None, label: String::new() }
    }
}

/// One recoverable autosave found on disk: its file, its id (the UUID's 128
/// bits) and its sidecar.
#[derive(Debug)]
pub struct Recovered {
    pub file: PathBuf,
    pub id: u128,
    pub meta: AutosaveMeta,
}

/// Lower-case hex digit for `n < 16`.
pub open spec fn hex_digit(n: nat) -> char {
    if n < 10 {
        (('0' as u32) + n) as char
    } else {
        (('a' as u32) + n - 10) as char
    }
}

/// The `k` lowest hex digits of `n`, least significant first.
pub open spec fn hex_le(n: nat, k: nat) -> Seq<char>
    decreases k,
{
    if k == 0 {
        Seq::empty()
    } else {
        seq![hex_digit(n % 16)] + hex_le(n / 16, (k - 1) as nat)
    }
}

/// The UUID `id` in its hyphenated lower-case form, as `Uuid`'s `Display`
/// writes it: 8-4-4-4-12 hex digits, most significant first.
pub open spec fn uuid_text(id: u128) -> Seq<char> {
    let h = hex_le(id as nat, 32).reverse();
    h.subrange(0, 8) + seq!['-'] + h.subrange(8, 12) + seq!['-'] + h.subrange(12, 16) + seq!['-']
        + h.subrange(16, 20) + seq!['-'] + h.subrange(20, 32)
}

/// What uuid's `Uuid::try_parse` makes of `text`, as the UUID's 128 bits.
pub uninterp spec fn uuid_parse(text: Seq<char>) -> Option<u128>;

/// uuid `Uuid::try_parse`, then `Uuid::as_u128`.
/// Trusted: the result is a function of `text` (named by `uuid_parse`), and
/// the hyphenated form of a UUID, as `uuid_text` spells it, parses back to
/// that UUID (try_parse accepts hyphenated hex digits in either case,
/// most significant first, and `as_u128` reads the bytes big-endian).
#[verifier::external_body]
fn parse_uuid(text: &str) -> (r: Option<u128>)
    ensures
        r == uuid_parse(text@),
        forall|id: u128| text@ == #[trigger] uuid_text(id) ==> r == Some(id),
{
    match Uuid::try_parse(text) {
        Ok(u) => Some(u.as_u128()),
        Err(_) => None,
    }
}

proof fn lemma_hex_le_len(n: nat, k: nat)
    ensures
        hex_le(n, k).len() == k,
    decreases k,
{
    if k > 0 {
        lemma_hex_le_len(n / 16, (k - 1) as nat);
    }
}

/// The hyphenated lower-case form of the UUID `id`.
pub fn uuid_string(id: u128) -> (s: String)
    ensures
        s@ == uuid_text(id),
{
    let mut digits: Vec<char> = Vec::new();
    let mut rest = id;
    let mut i: usize = 0;
    while i < 32
        invariant
            i <= 32,
            digits@ + hex_le(rest as nat, (32 - i) as nat) == hex_le(id as nat, 32),
        decreases 32 - i,
    {
        let ghost before = digits@;
        let ghost r = rest as nat;
        let d = (rest % 16) as u8;
        let c = if d < 10 {
            char_from(0x30 + d)
        } else {
            char_from(0x61 + d - 10)
        };
        digits.push(c);
        rest = rest / 16;
        proof {
            assert(hex_le(r, (32 - i) as nat) =~= seq![hex_digit(r % 16)] + hex_le(
                rest as nat,
                (32 - i - 1) as nat,
            ));
            assert(digits@ + hex_le(rest as nat, (32 - i - 1) as nat) =~= before + hex_le(
                r,
                (32 - i) as nat,
            ));
        }
        i = i + 1;
    }
    proof {
        lemma_hex_le_len(rest as nat, 0);
        assert(digits@ =~= hex_le(id as nat, 32));
        lemma_hex_le_len(id as nat, 32);
    }
    let ghost h = digits@.reverse();
    let mut s = String::new();
    let mut k: usize = 0;
    while k < 32
        invariant
            k <= 32,
            digits@.len() == 32,
            h == digits@.reverse(),
            s@ == uuid_prefix(h, k as int),
        decreases 32 - k,
    {
        if k == 8 || k == 12 || k == 16 || k == 20 {
            push_char(&mut s, '-');
        }
        push_char(&mut s, digits[31 - k]);
        proof {
            assert(h[k as int] == digits@[31 - k]);
            assert(s@ =~= uuid_prefix(h, k + 1));
        }
        k = k + 1;
    }
    proof {
        reveal_with_fuel(uuid_prefix, 33);
        assert(h.len() == 32);
        assert(uuid_prefix(h, 32) =~= uuid_text(id));
    }
    s
}

/// The first `k` hex digits of `h` with the hyphens that precede them.
spec fn uuid_prefix(h: Seq<char>, k: int) -> Seq<char>
    decreases k,
{
    if k <= 0 {
        Seq::empty()
    } else if k == 9 || k == 13 || k == 17 || k == 21 {
        uuid_prefix(h, k - 1).push('-').push(h[k - 1])
    } else {
        uuid_prefix(h, k - 1).push(h[k - 1])
    }
}

/// `char::from_u32` for a code point known to be a valid `char`.
fn char_from(u: u8) -> (c: char)
    requires
        0x30 <= u <= 0x39 || 0x61 <= u <= 0x66,
    ensures
        c as u32 == u,
{
    u as char
}


/// `.inkpdf`, the suffix of a snapshot file.
pub open spec fn document_suffix() -> Seq<char> {
    seq!['.', 'i', 'n', 'k', 'p', 'd', 'f']
}

/// The snapshot file name for `id`: `<uuid>.inkpdf`.
pub open spec fn document_name(id: u128) -> Seq<char> {
    uuid_text(id) + document_suffix()
}

/// `<uuid>.inkpdf`, the file an autosave snapshot of `id` is stored in.
pub fn document_file_name(id: u128) -> (s: String)
    ensures
        s@ == document_name(id),
{
    let mut s = uuid_string(id);
    s.append(".inkpdf");
    proof {
        reveal_strlit(".inkpdf");
    }
    s
}

/// `<uuid>.meta.json`, the sidecar file of `id`'s snapshot.
pub fn meta_file_name(id: u128) -> (s: String)
    ensures
        s@ == uuid_text(id) + ".meta.json"@,
{
    let mut s = uuid_string(id);
    s.append(".meta.json");
    s
}

/// `<uuid>.inkpdf.tmp`, where a snapshot is written before it is renamed
/// into place.
pub fn document_temp_name(id: u128) -> (s: String)
    ensures
        s@ == uuid_text(id) + ".inkpdf.tmp"@,
{
    let mut s = uuid_string(id);
    s.append(".inkpdf.tmp");
    s
}

/// `<uuid>.meta.tmp`, where a sidecar is written before it is renamed into
/// place.
pub fn meta_temp_name(id: u128) -> (s: String)
    ensures
        s@ == uuid_text(id) + ".meta.tmp"@,
{
    let mut s = uuid_string(id);
    s.append(".meta.tmp");
    s
}

/// Position of the last `.` in `name`, if any.
pub open spec fn last_dot(name: Seq<char>) -> Option<int>
    decreases name.len(),
{
    if name.len() == 0 {
        None
    } else if name.last() == '.' {
        Some(name.len() - 1)
    } else {
        last_dot(name.drop_last())
    }
}

/// ASCII lower-casing of one character.
pub open spec fn ascii_lower(c: char) -> char {
    if 'A' <= c && c <= 'Z' {
        ((c as u32) + 32) as char
    } else {
        c
    }
}

/// Equality up to ASCII case.
pub open spec fn eq_ignore_ascii_case(a: Seq<char>, b: Seq<char>) -> bool {
    &&& a.len() == b.len()
    &&& forall|i: int| 0 <= i < a.len() ==> ascii_lower(#[trigger] a[i]) == ascii_lower(b[i])
}

/// `inkpdf`, the extension of a snapshot file.
pub open spec fn document_extension() -> Seq<char> {
    seq!['i', 'n', 'k', 'p', 'd', 'f']
}

/// The id a directory entry named `name` is a snapshot of: its extension
/// (after the last `.`, which must not be the first character) is `inkpdf`
/// in any case, and the part before it parses as a UUID.
pub open spec fn spec_recoverable_id(name: Seq<char>) -> Option<u128> {
    match last_dot(name) {
        Some(i) => if i > 0 && eq_ignore_ascii_case(
            name.subrange(i + 1, name.len() as int),
            document_extension(),
        ) {
            uuid_parse(name.subrange(0, i))
        } else {
            None
        },
        None => None,
    }
}

pub(crate) proof fn lemma_last_dot_bounds(name: Seq<char>)
    ensures
        last_dot(name) matches Some(i) ==> 0 <= i < name.len() && name[i] == '.' && forall|j: int|
            i < j < name.len() ==> name[j] != '.',
        last_dot(name) is None ==> forall|j: int| 0 <= j < name.len() ==> name[j] != '.',
    decreases name.len(),
{
    if name.len() > 0 && name.last() != '.' {
        let init = name.drop_last();
        lemma_last_dot_bounds(init);
        assert forall|j: int| 0 <= j < init.len() implies init[j] == name[j] by {}
    }
}

proof fn lemma_last_dot_of(prefix: Seq<char>, suffix: Seq<char>, i: int)
    requires
        0 <= i < suffix.len(),
        suffix[i] == '.',
        forall|j: int| i < j < suffix.len() ==> suffix[j] != '.',
    ensures
        last_dot(prefix + suffix) == Some(prefix.len() + i),
    decreases suffix.len(),
{
    let whole = prefix + suffix;
    if suffix.len() - 1 > i {
        assert(whole.drop_last() =~= prefix + suffix.drop_last());
        lemma_last_dot_of(prefix, suffix.drop_last(), i);
    }
}

/// Position of the last `.` in `name`.
pub(crate) fn find_last_dot(name: &str) -> (r: Option<usize>)
    ensures
        r matches Some(i) ==> last_dot(name@) == Some(i as int) && i < name@.len(),
        r is None ==> last_dot(name@) is None,
{
    let n = name.unicode_len();
    let mut i = n;
    proof {
        assert(name@.subrange(0, n as int) =~= name@);
    }
    while i > 0 && name.get_char(i - 1) != '.'
        invariant
            i <= n == name@.len(),
            last_dot(name@.subrange(0, i as int)) == last_dot(name@),
        decreases i,
    {
        proof {
            assert(name@.subrange(0, i - 1) =~= name@.subrange(0, i as int).drop_last());
        }
        i = i - 1;
    }
    if i > 0 {
        proof {
            assert(name@.subrange(0, i as int).last() == '.');
        }
        Some(i - 1)
    } else {
        proof {
            assert(name@.subrange(0, 0) =~= Seq::<char>::empty());
        }
        None
    }
}

/// Whether the characters of `name` from `from` on equal `word` up to ASCII
/// case (`word` being lower-case).
pub(crate) fn tail_is(name: &str, from: usize, word: &[char]) -> (r: bool)
    requires
        from <= name@.len(),
        forall|i: int| 0 <= i < word@.len() ==> ascii_lower(#[trigger] word@[i]) == word@[i],
    ensures
        r == eq_ignore_ascii_case(name@.subrange(from as int, name@.len() as int), word@),
{
    let n = name.unicode_len();
    let ghost sub = name@.subrange(from as int, n as int);
    if n - from != word.len() {
        return false;
    }
    let mut k: usize = 0;
    while k < word.len()
        invariant
            k <= word@.len(),
            n - from == word@.len(),
            n == name@.len(),
            sub == name@.subrange(from as int, n as int),
            forall|i: int| 0 <= i < word@.len() ==> ascii_lower(#[trigger] word@[i]) == word@[i],
            forall|j: int| 0 <= j < k ==> ascii_lower(#[trigger] sub[j]) == ascii_lower(word@[j]),
        decreases word@.len() - k,
    {
        let c = name.get_char(from + k);
        let lower = if 'A' <= c && c <= 'Z' {
            char_shift(c)
        } else {
            c
        };
        proof {
            assert(sub[k as int] == c);
            assert(ascii_lower(word@[k as int]) == word@[k as int]);
        }
        if lower != word[k] {
            return false;
        }
        k = k + 1;
    }
    true
}

/// Recognizes a snapshot file by its name (without directory), returning
/// the id it belongs to.
pub fn recoverable_id(name: &str) -> (r: Option<u128>)
    ensures
        r == spec_recoverable_id(name@),
        forall|id: u128| name@ == #[trigger] document_name(id) ==> r == Some(id),
{
    proof {
        assert forall|id: u128| name@ == #[trigger] document_name(id) implies last_dot(name@) == Some(
            36int,
        ) && name@.len() == 43 && eq_ignore_ascii_case(
            name@.subrange(37, 43),
            document_extension(),
        ) && name@.subrange(0, 36) == uuid_text(id) by {
            lemma_hex_le_len(id as nat, 32);
            lemma_last_dot_of(uuid_text(id), document_suffix(), 0);
            assert(name@.subrange(37, 43) =~= document_extension());
            assert(name@.subrange(0, 36) =~= uuid_text(id));
        };
    }
    let n = name.unicode_len();
    let dot = match find_last_dot(name) {
        Some(d) => d,
        None => return None,
    };
    proof {
        lemma_last_dot_bounds(name@);
    }
    let ext: [char; 6] = ['i', 'n', 'k', 'p', 'd', 'f'];
    proof {
        assert(ext@ =~= document_extension());
    }
    if dot == 0 || !tail_is(name, dot + 1, &ext) {
        return None;
    }
    let stem = name.substring_char(0, dot);
    parse_uuid(stem)
}

/// The lower-case letter for an upper-case ASCII letter.
fn char_shift(c: char) -> (r: char)
    requires
        'A' <= c <= 'Z',
    ensures
        r == ascii_lower(c),
{
    ((c as u8) + 32) as char
}

/// Whether recovered snapshots are in ascending id order.
pub open spec fn sorted_by_id(v: Seq<Recovered>) -> bool {
    forall|i: int, j: int| 0 <= i < j < v.len() ==> v[i].id <= v[j].id
}

/// Where a snapshot with `id` goes among id-ordered `s`: after every one
/// whose id is not greater.
pub open spec fn id_insert_pos(s: Seq<Recovered>, id: u128) -> int
    decreases s.len(),
{
    if s.len() == 0 {
        0
    } else if s.last().id > id {
        id_insert_pos(s.drop_last(), id)
    } else {
        s.len() as int
    }
}

/// `s` ordered by id, snapshots with equal ids keeping their order.
pub open spec fn sorted_recovered(s: Seq<Recovered>) -> Seq<Recovered>
    decreases s.len(),
{
    if s.len() == 0 {
        s
    } else {
        let t = sorted_recovered(s.drop_last());
        t.insert(id_insert_pos(t, s.last().id), s.last())
    }
}

proof fn lemma_id_insert_pos(s: Seq<Recovered>, id: u128)
    ensures
        0 <= id_insert_pos(s, id) <= s.len(),
        id_insert_pos(s, id) > 0 ==> s[id_insert_pos(s, id) - 1].id <= id,
        forall|j: int| id_insert_pos(s, id) <= j < s.len() ==> #[trigger] s[j].id > id,
    decreases s.len(),
{
    if s.len() > 0 && s.last().id > id {
        let t = s.drop_last();
        lemma_id_insert_pos(t, id);
        assert forall|j: int| id_insert_pos(s, id) <= j < s.len() implies #[trigger] s[j].id > id by {
            if j < t.len() {
                assert(s[j] == t[j]);
            }
        }
    }
}

/// What `sorted_recovered` gives is ordered by id and holds the same
/// snapshots.
proof fn lemma_sorted_recovered(s: Seq<Recovered>)
    ensures
        sorted_by_id(sorted_recovered(s)),
        sorted_recovered(s).to_multiset() == s.to_multiset(),
    decreases s.len(),
{
    broadcast use vstd::seq_lib::group_to_multiset_ensures;

    if s.len() > 0 {
        let init = s.drop_last();
        let x = s.last();
        let t = sorted_recovered(init);
        lemma_sorted_recovered(init);
        lemma_id_insert_pos(t, x.id);
        let p = id_insert_pos(t, x.id);
        let r = t.insert(p, x);
        assert forall|i: int, j: int| 0 <= i < j < r.len() implies r[i].id <= r[j].id by {
            if j < p {
                assert(r[i] == t[i] && r[j] == t[j]);
            } else if j == p {
                assert(r[i] == t[i]);
                assert(t[i].id <= t[p - 1].id);
            } else if i < p {
                assert(r[i] == t[i] && r[j] == t[j - 1]);
                assert(t[j - 1].id > x.id);
            } else if i == p {
                assert(r[j] == t[j - 1]);
            } else {
                assert(r[i] == t[i - 1] && r[j] == t[j - 1]);
            }
        }
        assert(r.remove(p) =~= t);
        assert(r[p] == x);
        assert(r.contains(x));
        assert(r.to_multiset() =~= t.to_multiset().insert(x));
        assert(s =~= init.push(x));
    }
}

/// Orders what a scan found by id (stably: equal ids keep their order).
pub fn sort_recovered(found: &mut Vec<Recovered>)
    ensures
        final(found)@ == sorted_recovered(old(found)@),
        sorted_by_id(final(found)@),
        final(found)@.to_multiset() == old(found)@.to_multiset(),
{
    let mut input: Vec<Recovered> = Vec::new();
    std::mem::swap(&mut input, found);
    let ghost all = input@;
    let ghost mut done: int = 0;
    let mut out: Vec<Recovered> = Vec::new();
    proof {
        assert(input@ =~= all.subrange(0, all.len() as int));
        assert(all.subrange(0, 0) =~= Seq::<Recovered>::empty());
    }
    while input.len() > 0
        invariant
            0 <= done <= all.len(),
            input@ == all.subrange(done, all.len() as int),
            out@ == sorted_recovered(all.subrange(0, done)),
        decreases input@.len(),
    {
        let ghost before_out = out@;
        let item = input.remove(0);
        let mut p = out.len();
        proof {
            assert(out@.subrange(0, p as int) =~= out@);
        }
        while p > 0 && out[p - 1].id > item.id
            invariant
                p <= out@.len(),
                out@ == before_out,
                id_insert_pos(out@, item.id) == id_insert_pos(out@.subrange(0, p as int), item.id),
            decreases p,
        {
            proof {
                assert(out@.subrange(0, p as int).drop_last() =~= out@.subrange(0, p - 1));
            }
            p = p - 1;
        }
        proof {
            if p == 0 {
                assert(out@.subrange(0, 0) =~= Seq::<Recovered>::empty());
            }
            assert(id_insert_pos(out@, item.id) == p);
            assert(item == all[done]);
            assert(all.subrange(0, done + 1).drop_last() =~= all.subrange(0, done));
        }
        out.insert(p, item);
        proof {
            done = done + 1;
            assert(input@ =~= all.subrange(done, all.len() as int));
        }
    }
    proof {
        assert(all.subrange(0, done) =~= all);
        lemma_sorted_recovered(all);
    }
    *found = out;
}

} // verus!
