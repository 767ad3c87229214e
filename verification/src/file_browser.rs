//! What the embedded file browser lists for a directory: sub-directories
//! (for navigation) and `.pdf`/`.inkpdf` files, directories first, each
//! group in name order.

use std::path::PathBuf;

use vstd::prelude::*;

use crate::autosave::{document_extension, eq_ignore_ascii_case, find_last_dot, tail_is};
use crate::paths::extension;

verus! {

/// One directory entry: its path, its file name, and whether it is a
/// directory.
#[derive(Debug)]
pub struct BrowserEntry {
    pub path: PathBuf,
    pub name: String,
    pub is_dir: bool,
}

/// `pdf`.
pub open spec fn pdf_extension() -> Seq<char> {
    seq!['p', 'd', 'f']
}

/// Whether the browser shows an entry: every directory, and files whose
/// extension is `pdf` or `inkpdf` in any case.
pub open spec fn spec_is_listed(name: Seq<char>, is_dir: bool) -> bool {
    is_dir || match extension(name) {
        Some(ext) => eq_ignore_ascii_case(ext, pdf_extension()) || eq_ignore_ascii_case(
            ext,
            document_extension(),
        ),
        None => false,
    }
}

/// Whether the browser shows an entry named `name`.
pub fn is_listed(name: &str, is_dir: bool) -> (r: bool)
    ensures
        r == spec_is_listed(name@, is_dir),
{
    if is_dir {
        return true;
    }
    let n = name.unicode_len();
    let dot = match find_last_dot(name) {
        Some(d) => d,
        None => return false,
    };
    if dot == 0 {
        return false;
    }
    let pdf: [char; 3] = ['p', 'd', 'f'];
    let ink: [char; 6] = ['i', 'n', 'k', 'p', 'd', 'f'];
    proof {
        assert(pdf@ =~= pdf_extension());
        assert(ink@ =~= document_extension());
    }
    tail_is(name, dot + 1, &pdf) || tail_is(name, dot + 1, &ink)
}

/// Lexicographic order of names (by character, which for UTF-8 is the
/// order of the bytes).
pub open spec fn name_le(a: Seq<char>, b: Seq<char>) -> bool
    decreases a.len(),
{
    if a.len() == 0 {
        true
    } else if b.len() == 0 {
        false
    } else if a[0] != b[0] {
        a[0] < b[0]
    } else {
        name_le(a.drop_first(), b.drop_first())
    }
}

/// Browser order: directories before files, then by name.
pub open spec fn entry_le(a: BrowserEntry, b: BrowserEntry) -> bool {
    if a.is_dir != b.is_dir {
        a.is_dir
    } else {
        name_le(a.name@, b.name@)
    }
}

/// Whether `a` comes strictly after `b` in browser order.
fn entry_after(a: &BrowserEntry, b: &BrowserEntry) -> (r: bool)
    ensures
        r == !entry_le(*a, *b),
{
    if a.is_dir != b.is_dir {
        return !a.is_dir;
    }
    let x = a.name.as_str();
    let y = b.name.as_str();
    let n = x.unicode_len();
    let m = y.unicode_len();
    let mut i: usize = 0;
    proof {
        assert(x@.subrange(0, n as int) =~= x@);
        assert(y@.subrange(0, m as int) =~= y@);
    }
    while i < n && i < m && x.get_char(i) == y.get_char(i)
        invariant
            i <= n == x@.len(),
            m == y@.len(),
            i <= m,
            name_le(x@.subrange(i as int, n as int), y@.subrange(i as int, m as int)) == name_le(x@, y@),
        decreases n - i,
    {
        proof {
            assert(x@.subrange(i as int, n as int).drop_first() =~= x@.subrange(i + 1, n as int));
            assert(y@.subrange(i as int, m as int).drop_first() =~= y@.subrange(i + 1, m as int));
        }
        i = i + 1;
    }
    if i == n {
        false
    } else if i == m {
        true
    } else {
        x.get_char(i) > y.get_char(i)
    }
}

/// Whether entries are in browser order.
pub open spec fn in_browser_order(v: Seq<BrowserEntry>) -> bool {
    forall|i: int| 0 <= i < v.len() - 1 ==> entry_le(#[trigger] v[i], v[i + 1])
}

/// Where `x` goes among browser-ordered entries `s`: after every entry that
/// does not come after it.
pub open spec fn insert_pos(s: Seq<BrowserEntry>, x: BrowserEntry) -> int
    decreases s.len(),
{
    if s.len() == 0 {
        0
    } else if !entry_le(s.last(), x) {
        insert_pos(s.drop_last(), x)
    } else {
        s.len() as int
    }
}

/// `s` in browser order, entries that compare equal keeping their order
/// (each entry inserted after those before it that it does not precede).
pub open spec fn sorted_entries(s: Seq<BrowserEntry>) -> Seq<BrowserEntry>
    decreases s.len(),
{
    if s.len() == 0 {
        s
    } else {
        let t = sorted_entries(s.drop_last());
        t.insert(insert_pos(t, s.last()), s.last())
    }
}

/// The entries the browser shows, in its order: keeps the listed ones and
/// sorts them stably, so entries that compare equal keep their order.
pub fn browser_entries(entries: Vec<BrowserEntry>) -> (out: Vec<BrowserEntry>)
    ensures
        out@ == sorted_entries(entries@.filter(|e: BrowserEntry| spec_is_listed(e.name@, e.is_dir))),
        in_browser_order(out@),
        out@.to_multiset() == entries@.filter(|e: BrowserEntry| spec_is_listed(e.name@, e.is_dir)).to_multiset(),
{
    let ghost keep = |e: BrowserEntry| spec_is_listed(e.name@, e.is_dir);
    let ghost all = entries@;
    let mut rest = entries;
    let mut out: Vec<BrowserEntry> = Vec::new();
    let ghost mut done: int = 0;
    proof {
        assert(all.subrange(0, 0).filter(keep) =~= Seq::<BrowserEntry>::empty());
        assert(out@ =~= Seq::<BrowserEntry>::empty());
        assert(out@ =~= sorted_entries(all.subrange(0, 0).filter(keep)));
        assert(rest@ =~= all.subrange(0, all.len() as int));
    }
    while rest.len() > 0
        invariant
            keep == (|e: BrowserEntry| spec_is_listed(e.name@, e.is_dir)),
            0 <= done <= all.len(),
            rest@ == all.subrange(done, all.len() as int),
            in_browser_order(out@),
            out@.to_multiset() == all.subrange(0, done).filter(keep).to_multiset(),
            out@ == sorted_entries(all.subrange(0, done).filter(keep)),
        decreases rest@.len(),
    {
        let ghost before_out = out@;
        let ghost prefix = all.subrange(0, done);
        let item = rest.remove(0);
        proof {
            assert(item == all[done]);
            assert(all.subrange(0, done + 1) =~= prefix.push(item));
            prefix.lemma_filter_push(item, keep);
            prefix.filter(keep).to_multiset_ensures();
        }
        let name = item.name.as_str();
        let listed = is_listed(name, item.is_dir);
        assert(name@ == item.name@);
        assert(listed == keep(item));
        if listed {
            let mut p = out.len();
            proof {
                assert(out@.subrange(0, p as int) =~= out@);
            }
            while p > 0 && entry_after(&out[p - 1], &item)
                invariant
                    p <= out@.len(),
                    out@ == before_out,
                    in_browser_order(out@),
                    forall|j: int| p <= j < out@.len() ==> !entry_le(#[trigger] out@[j], item),
                    insert_pos(out@, item) == insert_pos(out@.subrange(0, p as int), item),
                decreases p,
            {
                proof {
                    assert(out@.subrange(0, p as int).drop_last() =~= out@.subrange(0, p - 1));
                }
                p = p - 1;
            }
            proof {
                if p == 0 {
                    assert(out@.subrange(0, 0) =~= Seq::<BrowserEntry>::empty());
                }
                assert(insert_pos(out@, item) == p);
                let f = prefix.filter(keep);
                assert(f.push(item).drop_last() =~= f);
            }
            out.insert(p, item);
            proof {
                lemma_insert_keeps_order(before_out, p as int, item);
                out@.to_multiset_ensures();
                assert(out@.remove(p as int) =~= before_out);
                assert(out@[p as int] == item);
                assert(out@.contains(item));
                assert(out@.to_multiset() =~= before_out.to_multiset().insert(item));
            }
        }
        proof {
            done = done + 1;
            assert(rest@ =~= all.subrange(done, all.len() as int));
        }
    }
    proof {
        assert(all.subrange(0, done) =~= all);
    }
    out
}

/// `name_le` is total: of two names, one sorts first.
proof fn lemma_name_le_total(a: Seq<char>, b: Seq<char>)
    ensures
        name_le(a, b) || name_le(b, a),
    decreases a.len(),
{
    if a.len() > 0 && b.len() > 0 {
        if a[0] == b[0] {
            lemma_name_le_total(a.drop_first(), b.drop_first());
        }
    }
}

/// Inserting `x` at `p`, after everything not after it and before
/// everything after it, keeps a sorted sequence sorted.
proof fn lemma_insert_keeps_order(s: Seq<BrowserEntry>, p: int, x: BrowserEntry)
    requires
        0 <= p <= s.len(),
        in_browser_order(s),
        p > 0 ==> entry_le(s[p - 1], x),
        forall|j: int| p <= j < s.len() ==> !entry_le(#[trigger] s[j], x),
    ensures
        in_browser_order(s.insert(p, x)),
{
    let t = s.insert(p, x);
    assert forall|i: int| 0 <= i < t.len() - 1 implies entry_le(#[trigger] t[i], t[i + 1]) by {
        if i < p - 1 {
            assert(t[i] == s[i] && t[i + 1] == s[i + 1]);
            assert(entry_le(s[i], s[i + 1]));
        } else if i == p - 1 {
            assert(t[i] == s[p - 1] && t[i + 1] == x);
        } else if i == p {
            assert(t[i] == x && t[i + 1] == s[p]);
            if x.is_dir == s[p].is_dir {
                lemma_name_le_total(x.name@, s[p].name@);
            }
        } else {
            assert(t[i] == s[i - 1] && t[i + 1] == s[i]);
            assert(entry_le(s[i - 1], s[i]));
        }
    };
}

} // verus!
