//! Path text handling: the final component of a path, its extension, and
//! giving a save path the document extension. Paths are Unix paths held as
//! text; the rules are those of `std::path::Path` on Unix.

use vstd::prelude::*;

use crate::autosave::{
    document_extension, document_suffix, eq_ignore_ascii_case, find_last_dot,
    last_dot, lemma_last_dot_bounds, tail_is,
};

verus! {

/// Position of the last `/` in `p`, if any.
pub open spec fn last_slash(p: Seq<char>) -> Option<int>
    decreases p.len(),
{
    if p.len() == 0 {
        None
    } else if p.last() == '/' {
        Some(p.len() - 1)
    } else {
        last_slash(p.drop_last())
    }
}

/// Where the last segment of `p` (what follows its last `/`) begins.
pub open spec fn segment_start(p: Seq<char>) -> int {
    match last_slash(p) {
        Some(i) => i + 1,
        None => 0,
    }
}

/// Where the final component of `p` lies, as `Path::file_name` finds it:
/// trailing `/` and `.` segments are skipped; a path that is empty, `/`,
/// `.`, or ends in `..` has none.
pub open spec fn file_name_range(p: Seq<char>) -> Option<(int, int)>
    decreases p.len(),
{
    if p.len() == 0 {
        None
    } else if p.last() == '/' {
        file_name_range(p.drop_last())
    } else if p.last() == '.' && p.len() == 1 {
        None
    } else if p.last() == '.' && p[p.len() - 2] == '/' {
        file_name_range(p.subrange(0, p.len() - 2))
    } else if p.subrange(segment_start(p), p.len() as int) == seq!['.', '.'] {
        None
    } else {
        Some((segment_start(p), p.len() as int))
    }
}

/// The final component of `p`, if it has one.
pub open spec fn spec_file_name(p: Seq<char>) -> Option<Seq<char>> {
    match file_name_range(p) {
        Some((s, e)) => Some(p.subrange(s, e)),
        None => None,
    }
}

/// The extension of a file name: what follows the last `.`, unless that
/// `.` is the name's first character.
pub open spec fn extension(name: Seq<char>) -> Option<Seq<char>> {
    match last_dot(name) {
        Some(i) => if i > 0 {
            Some(name.subrange(i + 1, name.len() as int))
        } else {
            None
        },
        None => None,
    }
}

/// Length of a file name without its extension and the `.` before it.
pub open spec fn stem_len(name: Seq<char>) -> int {
    match last_dot(name) {
        Some(i) => if i > 0 {
            i
        } else {
            name.len() as int
        },
        None => name.len() as int,
    }
}

/// `p` with the document extension: unchanged if its file name already has
/// it (in any case) or if it has no file name; otherwise its extension, if
/// any, and whatever follows the file name are replaced by `.inkpdf`.
pub open spec fn spec_with_extension(p: Seq<char>) -> Seq<char> {
    match file_name_range(p) {
        Some((s, e)) => {
            let name = p.subrange(s, e);
            if extension(name) matches Some(x) && eq_ignore_ascii_case(x, document_extension()) {
                p
            } else {
                p.subrange(0, s + stem_len(name)) + document_suffix()
            }
        },
        None => p,
    }
}

proof fn lemma_file_name_range_bounds(p: Seq<char>)
    ensures
        file_name_range(p) matches Some((s, e)) ==> 0 <= s <= e <= p.len(),
    decreases p.len(),
{
    lemma_last_slash_bound(p);
    if p.len() > 0 {
        if p.last() == '/' {
            lemma_file_name_range_bounds(p.drop_last());
        } else if p.last() == '.' && p.len() > 1 && p[p.len() - 2] == '/' {
            lemma_file_name_range_bounds(p.subrange(0, p.len() - 2));
        }
    }
}

proof fn lemma_last_slash_bound(p: Seq<char>)
    ensures
        last_slash(p) matches Some(i) ==> 0 <= i < p.len(),
    decreases p.len(),
{
    if p.len() > 0 && p.last() != '/' {
        lemma_last_slash_bound(p.drop_last());
    }
}

proof fn lemma_last_slash_props(p: Seq<char>)
    ensures
        last_slash(p) matches Some(i) ==> 0 <= i < p.len() && p[i] == '/' && forall|j: int|
            i < j < p.len() ==> p[j] != '/',
        last_slash(p) is None ==> forall|j: int| 0 <= j < p.len() ==> p[j] != '/',
    decreases p.len(),
{
    if p.len() > 0 && p.last() != '/' {
        let init = p.drop_last();
        lemma_last_slash_props(init);
        assert forall|j: int| 0 <= j < init.len() implies init[j] == p[j] by {}
    }
}

/// Characters without a `/` at the end of `p` do not change its last `/`.
proof fn lemma_last_slash_skip(p: Seq<char>, t: int)
    requires
        0 <= t <= p.len(),
        forall|j: int| t <= j < p.len() ==> p[j] != '/',
    ensures
        last_slash(p) == last_slash(p.subrange(0, t)),
    decreases p.len() - t,
{
    if p.len() > t {
        let init = p.drop_last();
        assert(init.subrange(0, t) =~= p.subrange(0, t));
        lemma_last_slash_skip(init, t);
    } else {
        assert(p.subrange(0, t) =~= p);
    }
}

/// Characters without a `.` at the end of `p` do not change its last `.`.
proof fn lemma_last_dot_skip(p: Seq<char>, t: int)
    requires
        0 <= t <= p.len(),
        forall|j: int| t <= j < p.len() ==> p[j] != '.',
    ensures
        last_dot(p) == last_dot(p.subrange(0, t)),
    decreases p.len() - t,
{
    if p.len() > t {
        let init = p.drop_last();
        assert(init.subrange(0, t) =~= p.subrange(0, t));
        lemma_last_dot_skip(init, t);
    } else {
        assert(p.subrange(0, t) =~= p);
    }
}

/// The final component is a non-empty run of non-`/` characters, other than
/// `.` and `..`, preceded by a `/` unless it starts the path.
proof fn lemma_file_name_range_facts(p: Seq<char>)
    ensures
        file_name_range(p) matches Some((s, e)) ==> name_span(p, s, e),
    decreases p.len(),
{
    if p.len() == 0 {
    } else if p.last() == '/' {
        let q = p.drop_last();
        lemma_file_name_range_facts(q);
        lemma_name_span_prefix(p, q);
    } else if p.last() == '.' && p.len() == 1 {
    } else if p.last() == '.' && p[p.len() - 2] == '/' {
        let q = p.subrange(0, p.len() - 2);
        lemma_file_name_range_facts(q);
        lemma_name_span_prefix(p, q);
    } else {
        lemma_last_slash_props(p);
        let ss = segment_start(p);
        let seg = p.subrange(ss, p.len() as int);
        assert(ss < p.len());
        if seg == seq!['.'] {
            let dot = seq!['.'];
            assert(dot.len() == 1 && dot[0] == '.');
            assert(seg.len() == 1);
            assert(ss == p.len() - 1);
            assert(seg[0] == p[ss]);
            assert(p.last() == '.');
            assert(p.len() > 1);
            assert(last_slash(p) == Some(p.len() - 2));
            assert(p[p.len() - 2] == '/');
        }
        if let Some((s, e)) = file_name_range(p) {
            assert(s == ss && e == p.len());
            assert(name_span(p, s, e));
        }
    }
}

/// `[s, e)` of `p` is a file name: a non-empty run of non-`/` characters,
/// other than `.` and `..`, preceded by a `/` unless it starts the path.
spec fn name_span(p: Seq<char>, s: int, e: int) -> bool {
    &&& 0 <= s < e <= p.len()
    &&& s > 0 ==> p[s - 1] == '/'
    &&& forall|j: int| s <= j < e ==> p[j] != '/'
    &&& p.subrange(s, e) != seq!['.']
    &&& p.subrange(s, e) != seq!['.', '.']
}

/// A file name in a prefix of `p` is one in `p`, where the prefix's final
/// component is that of `p`.
proof fn lemma_name_span_prefix(p: Seq<char>, q: Seq<char>)
    requires
        q.len() <= p.len(),
        q =~= p.subrange(0, q.len() as int),
        file_name_range(q) matches Some((s, e)) ==> name_span(q, s, e),
    ensures
        file_name_range(q) matches Some((s, e)) ==> name_span(p, s, e),
{
    if let Some((s, e)) = file_name_range(q) {
        assert(p.subrange(s, e) =~= q.subrange(s, e));
        assert forall|j: int| s <= j < e implies p[j] != '/' by {
            assert(p[j] == q[j]);
        }
        if s > 0 {
            assert(p[s - 1] == q[s - 1]);
        }
    }
}

/// What `spec_with_extension` makes of a path with a file name that lacks
/// the document extension has that extension.
proof fn lemma_with_extension_has_it(p: Seq<char>)
    requires
        spec_file_name(p) is Some,
    ensures
        spec_has_document_extension(spec_with_extension(p)),
{
    lemma_file_name_range_facts(p);
    let (s, e) = file_name_range(p).unwrap();
    let name = p.subrange(s, e);
    if extension(name) matches Some(x) && eq_ignore_ascii_case(x, document_extension()) {
    } else {
        lemma_last_dot_bounds(name);
        let stem = stem_len(name);
        assert(1 <= stem <= name.len()) by {
            if stem == 0 {
                assert(last_dot(name) is None || last_dot(name) == Some(0int));
            }
        }
        let a = p.subrange(0, s + stem);
        let d = document_suffix();
        let q = a + d;
        assert(q == spec_with_extension(p));
        // The last `/` of `q` is the one before the file name.
        assert forall|j: int| s <= j < q.len() implies q[j] != '/' by {
            if j < a.len() {
                assert(q[j] == p[j]);
            } else {
                assert(q[j] == d[j - a.len()]);
            }
        }
        lemma_last_slash_skip(q, s);
        assert(q.subrange(0, s) =~= p.subrange(0, s));
        if s > 0 {
            assert(p.subrange(0, s).last() == '/');
        } else {
            assert(p.subrange(0, s) =~= Seq::<char>::empty());
        }
        assert(segment_start(q) == s);
        assert(q.last() == 'f');
        let seg = q.subrange(s, q.len() as int);
        assert(seg.len() >= 7);
        assert(seg != seq!['.', '.']);
        assert(file_name_range(q) == Some((s, q.len() as int)));
        // The last `.` of the new name is the one added before the extension.
        let x = p.subrange(s, s + stem);
        assert(seg =~= x + d);
        assert forall|j: int| x.len() + 1 <= j < seg.len() implies seg[j] != '.' by {
            assert(seg[j] == d[j - x.len()]);
        }
        lemma_last_dot_skip(seg, x.len() + 1int);
        assert(seg.subrange(0, x.len() + 1int).last() == '.');
        assert(last_dot(seg) == Some(x.len() as int));
        assert(seg.subrange(x.len() + 1int, seg.len() as int) =~= document_extension());
    }
}

/// Where the final component of `path` lies.
fn file_name_bounds(path: &str) -> (r: Option<(usize, usize)>)
    ensures
        match r {
            Some((s, e)) => file_name_range(path@) == Some((s as int, e as int)),
            None => file_name_range(path@) is None,
        },
        r matches Some((s, e)) ==> s <= e <= path@.len(),
{
    proof {
        lemma_file_name_range_bounds(path@);
    }
    let n = path.unicode_len();
    let mut end = n;
    proof {
        assert(path@.subrange(0, n as int) =~= path@);
    }
    loop
        invariant
            end <= n == path@.len(),
            file_name_range(path@.subrange(0, end as int)) == file_name_range(path@),
        decreases end,
    {
        let ghost p = path@.subrange(0, end as int);
        if end == 0 {
            return None;
        }
        let c = path.get_char(end - 1);
        if c == '/' {
            proof {
                assert(p.drop_last() =~= path@.subrange(0, end - 1));
            }
            end = end - 1;
        } else if c == '.' && end == 1 {
            return None;
        } else if c == '.' && path.get_char(end - 2) == '/' {
            proof {
                assert(p.subrange(0, p.len() - 2) =~= path@.subrange(0, end - 2));
            }
            end = end - 2;
        } else {
            let mut s = end;
            proof {
                assert(p.subrange(0, end as int) =~= p);
            }
            while s > 0 && path.get_char(s - 1) != '/'
                invariant
                    s <= end <= n == path@.len(),
                    p == path@.subrange(0, end as int),
                    last_slash(p.subrange(0, s as int)) == last_slash(p),
                decreases s,
            {
                proof {
                    assert(p.subrange(0, s - 1) =~= p.subrange(0, s as int).drop_last());
                }
                s = s - 1;
            }
            proof {
                if s > 0 {
                    assert(p.subrange(0, s as int).last() == '/');
                } else {
                    assert(p.subrange(0, 0) =~= Seq::<char>::empty());
                }
                assert(segment_start(p) == s);
                assert(p.subrange(s as int, end as int) =~= path@.subrange(s as int, end as int));
            }
            if end - s == 2 && path.get_char(s) == '.' && path.get_char(s + 1) == '.' {
                proof {
                    assert(p.subrange(s as int, end as int) =~= seq!['.', '.']);
                }
                return None;
            }
            proof {
                let seg = p.subrange(s as int, end as int);
                if seg.len() == 2 {
                    assert(seg[0] == path@[s as int] && seg[1] == path@[s + 1]);
                    assert(seg != seq!['.', '.']) by {
                        if seg == seq!['.', '.'] {
                            assert(seg[0] == seq!['.', '.'][0]);
                            assert(seg[1] == seq!['.', '.'][1]);
                        }
                    }
                } else {
                    assert(seg.len() != seq!['.', '.'].len());
                }
            }
            return Some((s, end));
        }
    }
}

/// The final component of `path` (its file or directory name), or the empty
/// string where it has none.
pub fn file_name(path: &str) -> (r: String)
    ensures
        r@ == match spec_file_name(path@) {
            Some(name) => name,
            None => Seq::<char>::empty(),
        },
{
    match file_name_bounds(path) {
        Some((s, e)) => path.substring_char(s, e).to_owned(),
        None => String::new(),
    }
}

/// What a tab or title shows for `path`: its final component, or the whole
/// path where it has none.
pub fn file_label(path: &str) -> (r: String)
    ensures
        r@ == match spec_file_name(path@) {
            Some(name) => name,
            None => path@,
        },
{
    match file_name_bounds(path) {
        Some((s, e)) => path.substring_char(s, e).to_owned(),
        None => path.to_owned(),
    }
}

/// Whether the file name of `p` has the document extension, in any case.
pub open spec fn spec_has_document_extension(p: Seq<char>) -> bool {
    spec_file_name(p) matches Some(name) && extension(name) matches Some(x) && eq_ignore_ascii_case(
        x,
        document_extension(),
    )
}

/// Whether the file name of `path` ends in `.inkpdf` (in any case), which
/// decides whether a file is opened as a document or imported as a PDF.
pub fn has_document_extension(path: &str) -> (r: bool)
    ensures
        r == spec_has_document_extension(path@),
{
    let (s, e) = match file_name_bounds(path) {
        Some(b) => b,
        None => return false,
    };
    let name = path.substring_char(s, e);
    let ink: [char; 6] = ['i', 'n', 'k', 'p', 'd', 'f'];
    proof {
        assert(ink@ =~= document_extension());
        lemma_last_dot_bounds(name@);
    }
    match find_last_dot(name) {
        Some(d) => d > 0 && tail_is(name, d + 1, &ink),
        None => false,
    }
}

/// A save path with the document extension (see `spec_with_extension`);
/// whenever the path names a file, the result has that extension.
pub fn with_extension(path: &str) -> (r: String)
    ensures
        r@ == spec_with_extension(path@),
        spec_file_name(path@) is Some ==> spec_has_document_extension(r@),
{
    proof {
        if spec_file_name(path@) is Some {
            lemma_with_extension_has_it(path@);
        }
    }
    let (s, e) = match file_name_bounds(path) {
        Some(b) => b,
        None => return path.to_owned(),
    };
    let name = path.substring_char(s, e);
    let ghost nm = path@.subrange(s as int, e as int);
    proof {
        lemma_last_dot_bounds(nm);
    }
    let ink: [char; 6] = ['i', 'n', 'k', 'p', 'd', 'f'];
    proof {
        assert(ink@ =~= document_extension());
    }
    let stem = match find_last_dot(name) {
        Some(d) => {
            if d > 0 {
                if tail_is(name, d + 1, &ink) {
                    return path.to_owned();
                }
                d
            } else {
                e - s
            }
        },
        None => e - s,
    };
    let mut out = path.substring_char(0, s + stem).to_owned();
    out.append(".inkpdf");
    proof {
        reveal_strlit(".inkpdf");
        assert(".inkpdf"@ =~= document_suffix());
    }
    out
}

} // verus!
