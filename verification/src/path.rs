//! Paths as '/'-separated strings, read component by component as
//! `std::path` reads them on Unix: a leading '/' is the root, a leading "."
//! (not followed by more characters of its piece) is the current directory,
//! and the pieces between separators follow, where empty pieces (from
//! repeated or trailing separators) and "." pieces are skipped.
use vstd::prelude::*;

use crate::naming::{is_organized_category_folder_name, name_is_category};
use crate::order::{
    chars_lt, lemma_lt_irreflexive, lemma_lt_total, lemma_lt_transitive, lemma_stable_sorted_permutes, seq_lt,
    sort_stable, stable_sorted, SortKey,
};
use crate::text::{chars_eq, chars_of, string_from_chars};

verus! {

/// Index of the last occurrence of `c` in `s`, or -1 where there is none.
pub open spec fn last_index_of(s: Seq<char>, c: char) -> int
    decreases s.len(),
{
    if s.len() == 0 {
        -1
    } else if s.last() == c {
        s.len() - 1
    } else {
        last_index_of(s.drop_last(), c)
    }
}

pub proof fn lemma_last_index_of(s: Seq<char>, c: char)
    ensures
        -1 <= last_index_of(s, c) < s.len(),
        last_index_of(s, c) >= 0 ==> s[last_index_of(s, c)] == c,
        forall|j: int| last_index_of(s, c) < j < s.len() ==> s[j] != c,
    decreases s.len(),
{
    if s.len() > 0 && s.last() != c {
        lemma_last_index_of(s.drop_last(), c);
        assert forall|j: int| last_index_of(s, c) < j < s.len() implies s[j] != c by {
            if j < s.len() - 1 {
                assert(s.drop_last()[j] == s[j]);
            }
        }
    }
}

/// The component that one piece between separators gives: none for an
/// empty piece or ".", else the piece itself.
pub open spec fn kept_piece(piece: Seq<char>) -> Seq<Seq<char>> {
    if piece.len() == 0 || piece == seq!['.'] {
        Seq::<Seq<char>>::empty()
    } else {
        seq![piece]
    }
}

/// The components that the pieces of `p` give, in order.
pub open spec fn body_components(p: Seq<char>) -> Seq<Seq<char>>
    decreases p.len(),
{
    let i = last_index_of(p, '/');
    if i < 0 {
        kept_piece(p)
    } else {
        proof {
            lemma_last_index_of(p, '/');
        }
        body_components(p.subrange(0, i)) + kept_piece(p.subrange(i + 1, p.len() as int))
    }
}

pub open spec fn has_root(p: Seq<char>) -> bool {
    p.len() > 0 && p[0] == '/'
}

/// A relative path that starts with the piece ".".
pub open spec fn has_cur_dir(p: Seq<char>) -> bool {
    !has_root(p) && p.len() > 0 && p[0] == '.' && (p.len() == 1 || p[1] == '/')
}

/// The components of `p`: "/" for the root, "." for a leading current
/// directory, then the components of its pieces.
pub open spec fn components(p: Seq<char>) -> Seq<Seq<char>> {
    (if has_root(p) {
        seq![seq!['/']]
    } else {
        Seq::<Seq<char>>::empty()
    }) + (if has_cur_dir(p) {
        seq![seq!['.']]
    } else {
        Seq::<Seq<char>>::empty()
    }) + body_components(p)
}

/// A component that names an entry: not the root, ".", or "..".
pub open spec fn is_normal(c: Seq<char>) -> bool {
    c != seq!['/'] && c != seq!['.'] && c != seq!['.', '.']
}

/// The name of the entry that components lead to: the last one, where it
/// names an entry.
pub open spec fn comps_file_name(cs: Seq<Seq<char>>) -> Option<Seq<char>> {
    if cs.len() > 0 && is_normal(cs.last()) {
        Some(cs.last())
    } else {
        None
    }
}

/// The file name of a path (`Path::file_name`).
pub open spec fn spec_file_name(p: Seq<char>) -> Option<Seq<char>> {
    comps_file_name(components(p))
}

/// The components of the parent (`Path::parent`): all but the last, unless
/// there is none or the last is the root.
pub open spec fn spec_parent_components(p: Seq<char>) -> Option<Seq<Seq<char>>> {
    let cs = components(p);
    if cs.len() > 0 && cs.last() != seq!['/'] {
        Some(cs.drop_last())
    } else {
        None
    }
}

/// Components joined by '/'.
pub open spec fn joined(cs: Seq<Seq<char>>) -> Seq<char>
    decreases cs.len(),
{
    if cs.len() == 0 {
        Seq::<char>::empty()
    } else if cs.len() == 1 {
        cs[0]
    } else {
        joined(cs.drop_last()) + seq!['/'] + cs.last()
    }
}

/// The path written with the given components, one '/' between them.
pub open spec fn render(cs: Seq<Seq<char>>) -> Seq<char> {
    if cs.len() > 0 && cs[0] == seq!['/'] {
        seq!['/'] + joined(cs.drop_first())
    } else {
        joined(cs)
    }
}

/// The parent directory of a path, written with one '/' between its
/// components.
pub open spec fn spec_parent(p: Seq<char>) -> Option<Seq<char>> {
    match spec_parent_components(p) {
        Some(cs) => Some(render(cs)),
        None => None,
    }
}

/// Whether two paths have the same components (`Path`'s `==`).
pub open spec fn same_path(a: Seq<char>, b: Seq<char>) -> bool {
    components(a) == components(b)
}

pub open spec fn comps_prefix(base: Seq<Seq<char>>, cs: Seq<Seq<char>>) -> bool {
    base.len() <= cs.len() && cs.take(base.len() as int) == base
}

/// Whether `p` lies at or below `base`, component by component
/// (`Path::starts_with`).
pub open spec fn path_starts_with(p: Seq<char>, base: Seq<char>) -> bool {
    comps_prefix(components(base), components(p))
}

/// The components of `p` below `root`, or all of them where `p` is not
/// below `root` (`strip_prefix(root).unwrap_or(p)`).
pub open spec fn relative_components(p: Seq<char>, root: Seq<char>) -> Seq<Seq<char>> {
    if path_starts_with(p, root) {
        components(p).skip(components(root).len() as int)
    } else {
        components(p)
    }
}

/// A component that names an entry beginning with '.'.
pub open spec fn is_hidden_component(c: Seq<char>) -> bool {
    is_normal(c) && c.len() > 0 && c[0] == '.'
}

pub open spec fn has_hidden_component(cs: Seq<Seq<char>>) -> bool {
    exists|i: int| 0 <= i < cs.len() && #[trigger] is_hidden_component(cs[i])
}

/// Whether the parent of `path` is `root` (`path.parent() == Some(root)`).
pub open spec fn spec_is_loose_file_at_root(path: Seq<char>, root: Seq<char>) -> bool {
    spec_parent_components(path) == Some(components(root))
}

/// Whether no component of `path` below `root` begins with '.'.
pub open spec fn spec_is_finder_visible(path: Seq<char>, root: Seq<char>) -> bool {
    !has_hidden_component(relative_components(path, root))
}

/// `base` joined with `name`: `name` itself where it is absolute, else the
/// two with a '/' between them unless `base` is empty or already ends in '/'.
pub open spec fn spec_join(base: Seq<char>, name: Seq<char>) -> Seq<char> {
    if name.len() > 0 && name[0] == '/' {
        name
    } else if base.len() == 0 || base.last() == '/' {
        base + name
    } else {
        base + seq!['/'] + name
    }
}

/// The extension of a file name: what follows its last '.', where that '.'
/// is not the first character; none for "..".
pub open spec fn spec_extension_of_name(name: Seq<char>) -> Option<Seq<char>> {
    let d = last_index_of(name, '.');
    if name == seq!['.', '.'] || d <= 0 {
        None
    } else {
        Some(name.subrange(d + 1, name.len() as int))
    }
}

/// The stem of a file name: what precedes its last '.', where that '.' is not
/// the first character; the whole name otherwise.
pub open spec fn spec_stem_of_name(name: Seq<char>) -> Seq<char> {
    let d = last_index_of(name, '.');
    if name == seq!['.', '.'] || d <= 0 {
        name
    } else {
        name.subrange(0, d)
    }
}

pub open spec fn spec_extension(p: Seq<char>) -> Option<Seq<char>> {
    match spec_file_name(p) {
        Some(name) => spec_extension_of_name(name),
        None => None,
    }
}

pub open spec fn spec_file_stem(p: Seq<char>) -> Option<Seq<char>> {
    match spec_file_name(p) {
        Some(name) => Some(spec_stem_of_name(name)),
        None => None,
    }
}

/// Index of the last `c` in `v`.
pub fn find_last(v: &Vec<char>, c: char) -> (r: Option<usize>)
    ensures
        match r {
            Some(i) => i == last_index_of(v@, c) && i < v@.len() && v@[i as int] == c,
            None => last_index_of(v@, c) == -1,
        },
{
    proof {
        lemma_last_index_of(v@, c);
    }
    let mut i: usize = v.len();
    while i > 0
        invariant
            i <= v.len(),
            last_index_of(v@, c) < i,
            -1 <= last_index_of(v@, c) < v@.len(),
            last_index_of(v@, c) >= 0 ==> v@[last_index_of(v@, c)] == c,
            forall|j: int| last_index_of(v@, c) < j < v@.len() ==> v@[j] != c,
        decreases i,
    {
        if v[i - 1] == c {
            return Some(i - 1);
        }
        i -= 1;
    }
    None
}

/// The characters of `v` from `from` up to `to`.
pub fn sub_chars(v: &Vec<char>, from: usize, to: usize) -> (r: Vec<char>)
    requires
        from <= to <= v.len(),
    ensures
        r@ == v@.subrange(from as int, to as int),
{
    let mut r: Vec<char> = Vec::new();
    let mut i = from;
    while i < to
        invariant
            from <= i <= to <= v.len(),
            r@ == v@.subrange(from as int, i as int),
        decreases to - i,
    {
        r.push(v[i]);
        assert(v@.subrange(from as int, i + 1) =~= v@.subrange(from as int, i as int).push(v@[i as int]));
        i += 1;
    }
    r
}

pub open spec fn char_vecs(vs: Seq<Vec<char>>) -> Seq<Seq<char>> {
    vs.map_values(|v: Vec<char>| v@)
}

/// Every component of the pieces of `p` is non-empty, not ".", and holds
/// no '/'.
pub proof fn lemma_body_components(p: Seq<char>)
    ensures
        forall|i: int|
            0 <= i < body_components(p).len() ==> {
                &&& (#[trigger] body_components(p)[i]).len() > 0
                &&& body_components(p)[i] != seq!['.']
                &&& body_components(p)[i] != seq!['/']
            },
    decreases p.len(),
{
    lemma_last_index_of(p, '/');
    let i = last_index_of(p, '/');
    if i >= 0 {
        lemma_body_components(p.subrange(0, i));
        let piece = p.subrange(i + 1, p.len() as int);
        if piece.len() == 1 {
            assert(piece[0] == p[i + 1]);
            assert(piece != seq!['/']) by {
                assert(seq!['/'][0] == '/');
            }
        }
        let a = body_components(p.subrange(0, i));
        let b = kept_piece(piece);
        assert forall|k: int| 0 <= k < body_components(p).len() implies {
            &&& (#[trigger] body_components(p)[k]).len() > 0
            &&& body_components(p)[k] != seq!['.']
            &&& body_components(p)[k] != seq!['/']
        } by {
            if k < a.len() {
                assert(body_components(p)[k] == a[k]);
            } else {
                assert(body_components(p)[k] == b[k - a.len()]);
            }
        }
    } else {
        let piece = p;
        if piece.len() == 1 && piece == seq!['/'] {
            assert(p[0] == '/');
        }
    }
}

/// A file name is a non-empty component of the pieces.
pub proof fn lemma_file_name_nonempty(p: Seq<char>)
    ensures
        spec_file_name(p) matches Some(n) ==> n.len() > 0 && n != seq!['.'] && n != seq!['.', '.'],
{
    lemma_body_components(p);
    let b = body_components(p);
    let cs = components(p);
    if b.len() > 0 {
        assert(cs.last() == b.last());
        assert(b.last() == b[b.len() - 1]);
    }
}

fn kept_piece_push(tail: &mut Vec<Vec<char>>, piece: Vec<char>)
    ensures
        char_vecs(final(tail)@) == kept_piece(piece@) + char_vecs(old(tail)@),
{
    if piece.len() == 0 {
        assert(kept_piece(piece@) =~= Seq::<Seq<char>>::empty());
        assert(char_vecs(tail@) =~= Seq::<Seq<char>>::empty() + char_vecs(tail@));
    } else if piece.len() == 1 && piece[0] == '.' {
        assert(piece@ =~= seq!['.']);
        assert(char_vecs(tail@) =~= Seq::<Seq<char>>::empty() + char_vecs(tail@));
    } else {
        assert(piece@ != seq!['.']) by {
            if piece.len() == 1 {
                assert(piece@[0] != seq!['.'][0]);
            }
        }
        let ghost before = char_vecs(tail@);
        let ghost pv = piece@;
        tail.insert(0, piece);
        assert(char_vecs(tail@) =~= seq![pv] + before);
    }
}

fn body_components_of(v: &Vec<char>) -> (r: Vec<Vec<char>>)
    ensures
        char_vecs(r@) == body_components(v@),
{
    let mut tail: Vec<Vec<char>> = Vec::new();
    let mut end: usize = v.len();
    assert(v@.subrange(0, end as int) =~= v@);
    assert(char_vecs(tail@) =~= Seq::<Seq<char>>::empty());
    loop
        invariant
            end <= v.len(),
            body_components(v@) == body_components(v@.subrange(0, end as int)) + char_vecs(tail@),
        decreases end,
    {
        let prefix = sub_chars(v, 0, end);
        match find_last(&prefix, '/') {
            None => {
                kept_piece_push(&mut tail, prefix);
                proof {
                    assert(body_components(v@.subrange(0, end as int)) == kept_piece(v@.subrange(0, end as int)));
                }
                return tail;
            },
            Some(i) => {
                let piece = sub_chars(&prefix, i + 1, end);
                let ghost before = char_vecs(tail@);
                kept_piece_push(&mut tail, piece);
                proof {
                    let pre = v@.subrange(0, end as int);
                    assert(pre.subrange(0, i as int) =~= v@.subrange(0, i as int));
                    assert(body_components(pre) == body_components(pre.subrange(0, i as int)) + kept_piece(
                        pre.subrange(i + 1, pre.len() as int),
                    ));
                    assert(body_components(v@) =~= body_components(v@.subrange(0, i as int)) + char_vecs(tail@));
                }
                end = i;
            },
        }
    }
}

/// The components of the path with characters `v`.
pub fn components_of(v: &Vec<char>) -> (r: Vec<Vec<char>>)
    ensures
        char_vecs(r@) == components(v@),
{
    let mut r: Vec<Vec<char>> = Vec::new();
    let ghost first: Seq<Seq<char>>;
    if v.len() > 0 && v[0] == '/' {
        let mut root: Vec<char> = Vec::new();
        root.push('/');
        r.push(root);
        proof {
            first = seq![seq!['/']];
        }
    } else if v.len() > 0 && v[0] == '.' && (v.len() == 1 || v[1] == '/') {
        let mut cur: Vec<char> = Vec::new();
        cur.push('.');
        r.push(cur);
        proof {
            first = seq![seq!['.']];
        }
    } else {
        proof {
            first = Seq::<Seq<char>>::empty();
        }
    }
    assert(char_vecs(r@) =~= first);
    let mut body = body_components_of(v);
    let ghost bv = char_vecs(body@);
    let ghost rv = r@;
    r.append(&mut body);
    assert(char_vecs(r@) =~= char_vecs(rv) + bv);
    assert(components(v@) =~= first + body_components(v@));
    r
}

fn is_root_chars(c: &Vec<char>) -> (r: bool)
    ensures
        r == (c@ == seq!['/']),
{
    if c.len() == 1 && c[0] == '/' {
        assert(c@ =~= seq!['/']);
        true
    } else {
        assert(c.len() == 1 ==> c@[0] != seq!['/'][0]);
        false
    }
}

fn is_normal_chars(c: &Vec<char>) -> (r: bool)
    ensures
        r == is_normal(c@),
{
    if c.len() == 1 {
        if c[0] == '/' || c[0] == '.' {
            assert(c@ =~= seq!['/'] || c@ =~= seq!['.']);
            false
        } else {
            assert(c@[0] != seq!['/'][0] && c@[0] != seq!['.'][0]);
            true
        }
    } else if c.len() == 2 {
        if c[0] == '.' && c[1] == '.' {
            assert(c@ =~= seq!['.', '.']);
            false
        } else {
            assert(c@[0] != seq!['.', '.'][0] || c@[1] != seq!['.', '.'][1]);
            true
        }
    } else {
        true
    }
}

fn comps_file_name_of(cs: &Vec<Vec<char>>) -> (r: Option<Vec<char>>)
    ensures
        match r {
            Some(n) => comps_file_name(char_vecs(cs@)) == Some(n@),
            None => comps_file_name(char_vecs(cs@)) is None,
        },
{
    let n = cs.len();
    if n == 0 {
        return None;
    }
    assert(char_vecs(cs@).last() == cs@[n - 1]@);
    if is_normal_chars(&cs[n - 1]) {
        Some(cs[n - 1].clone())
    } else {
        None
    }
}

/// The characters of the file name of the path with characters `v`.
pub fn file_name_chars(v: &Vec<char>) -> (r: Option<Vec<char>>)
    ensures
        match r {
            Some(n) => spec_file_name(v@) == Some(n@),
            None => spec_file_name(v@) is None,
        },
{
    let cs = components_of(v);
    comps_file_name_of(&cs)
}

/// The path written with the components `cs`.
fn render_of(cs: &Vec<Vec<char>>) -> (r: Vec<char>)
    ensures
        r@ == render(char_vecs(cs@)),
{
    let ghost all = char_vecs(cs@);
    let mut out: Vec<char> = Vec::new();
    let mut start: usize = 0;
    if cs.len() > 0 && is_root_chars(&cs[0]) {
        out.push('/');
        start = 1;
    }
    let ghost lead = out@;
    let mut k: usize = start;
    assert(all.subrange(start as int, start as int) =~= Seq::<Seq<char>>::empty());
    while k < cs.len()
        invariant
            start <= k <= cs.len(),
            all == char_vecs(cs@),
            out@ == lead + joined(all.subrange(start as int, k as int)),
        decreases cs.len() - k,
    {
        let ghost before = out@;
        if k > start {
            out.push('/');
        }
        let c = &cs[k];
        let mut m: usize = 0;
        let ghost mid = out@;
        while m < c.len()
            invariant
                m <= c.len(),
                out@ == mid + c@.take(m as int),
            decreases c.len() - m,
        {
            out.push(c[m]);
            assert(c@.take(m + 1) =~= c@.take(m as int).push(c@[m as int]));
            m += 1;
        }
        proof {
            assert(c@.take(c@.len() as int) =~= c@);
            let s1 = all.subrange(start as int, k + 1);
            assert(s1.drop_last() =~= all.subrange(start as int, k as int));
            assert(s1.last() == c@);
            if k == start {
                assert(s1 =~= seq![c@]);
                assert(out@ =~= lead + joined(s1));
            } else {
                assert(out@ =~= lead + (joined(all.subrange(start as int, k as int)) + seq!['/'] + c@));
            }
        }
        k += 1;
    }
    proof {
        if start == 1 {
            assert(all.subrange(1, all.len() as int) =~= all.drop_first());
            assert(lead =~= seq!['/']);
        } else {
            assert(all.subrange(0, all.len() as int) =~= all);
            assert(lead =~= Seq::<char>::empty());
            assert(out@ =~= joined(all));
        }
    }
    out
}

/// `base` joined with `name`.
pub fn join(base: &str, name: &str) -> (r: String)
    ensures
        r@ == spec_join(base@, name@),
{
    let vb = chars_of(base);
    let vn = chars_of(name);
    if vn.len() > 0 && vn[0] == '/' {
        return string_from_chars(&vn);
    }
    let mut out = vb.clone();
    if !(vb.len() == 0 || vb[vb.len() - 1] == '/') {
        out.push('/');
    }
    let mut i: usize = 0;
    let ghost prefix = out@;
    while i < vn.len()
        invariant
            i <= vn.len(),
            out@ == prefix + vn@.take(i as int),
        decreases vn.len() - i,
    {
        out.push(vn[i]);
        assert(vn@.take(i + 1) =~= vn@.take(i as int).push(vn@[i as int]));
        i += 1;
    }
    assert(vn@.take(vn@.len() as int) =~= vn@);
    assert(vb@.last() == vb@[vb@.len() - 1]);
    let r = string_from_chars(&out);
    assert(r@ =~= spec_join(base@, name@));
    r
}

/// The file name of `path` (`Path::file_name`): its last component, where
/// that names an entry.
pub fn file_name(path: &str) -> (r: Option<String>)
    ensures
        match r {
            Some(n) => spec_file_name(path@) == Some(n@),
            None => spec_file_name(path@) is None,
        },
{
    let v = chars_of(path);
    match file_name_chars(&v) {
        Some(n) => Some(string_from_chars(&n)),
        None => None,
    }
}

/// The directory that contains `path` (`Path::parent`), written with one
/// '/' between its components.
pub fn parent(path: &str) -> (r: Option<String>)
    ensures
        match r {
            Some(q) => spec_parent(path@) == Some(q@),
            None => spec_parent(path@) is None,
        },
{
    let v = chars_of(path);
    let mut cs = components_of(&v);
    let n = cs.len();
    if n == 0 {
        return None;
    }
    assert(char_vecs(cs@).last() == cs@[n - 1]@);
    if is_root_chars(&cs[n - 1]) {
        return None;
    }
    let ghost all = char_vecs(cs@);
    cs.pop();
    assert(char_vecs(cs@) =~= all.drop_last());
    let q = render_of(&cs);
    Some(string_from_chars(&q))
}

fn comps_eq(a: &Vec<Vec<char>>, b: &Vec<Vec<char>>) -> (r: bool)
    ensures
        r == (char_vecs(a@) == char_vecs(b@)),
{
    if a.len() != b.len() {
        assert(char_vecs(a@).len() != char_vecs(b@).len());
        return false;
    }
    let mut i: usize = 0;
    while i < a.len()
        invariant
            a.len() == b.len(),
            i <= a.len(),
            forall|j: int| 0 <= j < i ==> a@[j]@ == b@[j]@,
        decreases a.len() - i,
    {
        if !chars_eq(&a[i], &b[i]) {
            assert(char_vecs(a@)[i as int] != char_vecs(b@)[i as int]);
            return false;
        }
        i += 1;
    }
    assert(char_vecs(a@) =~= char_vecs(b@));
    true
}

/// Whether `base` is a prefix of `cs`, compared from index 0 to `base.len()`.
fn comps_prefix_of(base: &Vec<Vec<char>>, cs: &Vec<Vec<char>>) -> (r: bool)
    ensures
        r == comps_prefix(char_vecs(base@), char_vecs(cs@)),
{
    if base.len() > cs.len() {
        return false;
    }
    let mut i: usize = 0;
    while i < base.len()
        invariant
            base.len() <= cs.len(),
            i <= base.len(),
            forall|j: int| 0 <= j < i ==> base@[j]@ == cs@[j]@,
        decreases base.len() - i,
    {
        if !chars_eq(&base[i], &cs[i]) {
            assert(char_vecs(cs@).take(base.len() as int)[i as int] != char_vecs(base@)[i as int]);
            return false;
        }
        i += 1;
    }
    assert(char_vecs(cs@).take(base.len() as int) =~= char_vecs(base@));
    true
}

/// Whether `a` and `b` have the same components (`Path`'s `==`).
pub fn is_same_path(a: &str, b: &str) -> (r: bool)
    ensures
        r == same_path(a@, b@),
{
    let ca = components_of(&chars_of(a));
    let cb = components_of(&chars_of(b));
    comps_eq(&ca, &cb)
}

/// Whether `path` lies at or below `base`, component by component.
pub fn starts_with_path(path: &str, base: &str) -> (r: bool)
    ensures
        r == path_starts_with(path@, base@),
{
    let cp = components_of(&chars_of(path));
    let cb = components_of(&chars_of(base));
    comps_prefix_of(&cb, &cp)
}

/// Extension of the file that `path` names.
pub fn extension(path: &str) -> (r: Option<String>)
    ensures
        match r {
            Some(e) => spec_extension(path@) == Some(e@),
            None => spec_extension(path@) is None,
        },
{
    let v = chars_of(path);
    match file_name_chars(&v) {
        None => None,
        Some(name) => {
            if name.len() == 2 && name[0] == '.' && name[1] == '.' {
                assert(name@ =~= seq!['.', '.']);
                return None;
            }
            match find_last(&name, '.') {
                None => None,
                Some(0) => None,
                Some(d) => {
                    let e = sub_chars(&name, d + 1, name.len());
                    Some(string_from_chars(&e))
                },
            }
        },
    }
}

/// Stem of the file that `path` names.
pub fn file_stem(path: &str) -> (r: Option<String>)
    ensures
        match r {
            Some(e) => spec_file_stem(path@) == Some(e@),
            None => spec_file_stem(path@) is None,
        },
{
    let v = chars_of(path);
    match file_name_chars(&v) {
        None => None,
        Some(name) => {
            if name.len() == 2 && name[0] == '.' && name[1] == '.' {
                assert(name@ =~= seq!['.', '.']);
                return Some(string_from_chars(&name));
            }
            match find_last(&name, '.') {
                None => Some(string_from_chars(&name)),
                Some(0) => Some(string_from_chars(&name)),
                Some(d) => {
                    let e = sub_chars(&name, 0, d);
                    Some(string_from_chars(&e))
                },
            }
        },
    }
}

/// Whether `path`'s parent directory is `root` itself, component by
/// component (`path.parent() == Some(root)`).
pub fn is_loose_file_at_root(path: &str, root: &str) -> (r: bool)
    ensures
        r == spec_is_loose_file_at_root(path@, root@),
{
    let mut cs = components_of(&chars_of(path));
    let cr = components_of(&chars_of(root));
    let n = cs.len();
    if n == 0 {
        return false;
    }
    assert(char_vecs(cs@).last() == cs@[n - 1]@);
    if is_root_chars(&cs[n - 1]) {
        return false;
    }
    let ghost all = char_vecs(cs@);
    cs.pop();
    assert(char_vecs(cs@) =~= all.drop_last());
    comps_eq(&cs, &cr)
}

fn is_hidden_chars(c: &Vec<char>) -> (r: bool)
    ensures
        r == is_hidden_component(c@),
{
    is_normal_chars(c) && c.len() > 0 && c[0] == '.'
}

/// Whether no component of `path` below `root` names an entry that begins
/// with '.'.  Platform flags that hide a file are read by the caller.
pub fn is_finder_visible(path: &str, root: &str) -> (r: bool)
    ensures
        r == spec_is_finder_visible(path@, root@),
{
    let cp = components_of(&chars_of(path));
    let cr = components_of(&chars_of(root));
    let start: usize = if comps_prefix_of(&cr, &cp) {
        cr.len()
    } else {
        0
    };
    let ghost rel = relative_components(path@, root@);
    assert(rel =~= char_vecs(cp@).skip(start as int));
    let mut k: usize = start;
    while k < cp.len()
        invariant
            start <= k <= cp.len(),
            rel == char_vecs(cp@).skip(start as int),
            rel == relative_components(path@, root@),
            forall|j: int| 0 <= j < k - start ==> !is_hidden_component(#[trigger] rel[j]),
        decreases cp.len() - k,
    {
        assert(rel[k - start] == cp@[k as int]@);
        if is_hidden_chars(&cp[k]) {
            assert(rel.len() == cp@.len() - start);
            assert(is_hidden_component(rel[k - start]));
            assert(has_hidden_component(rel));
            return false;
        }
        k += 1;
    }
    true
}

/// Whether the directory with components `cs` is a category folder, where
/// `marked` lists the directories in which the caller found the marker
/// file.
pub open spec fn dir_is_category_folder(cs: Seq<Seq<char>>, marked: Seq<String>) -> bool {
    name_is_category(comps_file_name(cs)) || exists|k: int|
        0 <= k < marked.len() && components((#[trigger] marked[k])@) == cs
}

/// Whether the directory with components `current`, or one of its
/// ancestors, that lies strictly below `root` is a category folder; the walk
/// up stops at the first directory that is not strictly below `root`, or
/// that has no parent (`PathBuf::pop`).
pub open spec fn organized_from(current: Seq<Seq<char>>, root: Seq<Seq<char>>, marked: Seq<String>) -> bool
    decreases current.len(),
{
    if comps_prefix(root, current) && current != root {
        if dir_is_category_folder(current, marked) {
            true
        } else if current.len() > 0 && current.last() != seq!['/'] {
            organized_from(current.drop_last(), root, marked)
        } else {
            false
        }
    } else {
        false
    }
}

/// Whether some directory that contains `path` and lies strictly below
/// `root` is a category folder.
pub open spec fn spec_inside_organized_folder(path: Seq<char>, root: Seq<char>, marked: Seq<String>) -> bool {
    match spec_parent_components(path) {
        Some(dir) => organized_from(dir, components(root), marked),
        None => false,
    }
}

fn is_marked(dir: &Vec<Vec<char>>, marked: &Vec<String>) -> (r: bool)
    ensures
        r == exists|k: int| 0 <= k < marked@.len() && components((#[trigger] marked@[k])@) == char_vecs(dir@),
{
    let mut k: usize = 0;
    while k < marked.len()
        invariant
            k <= marked.len(),
            forall|m: int| 0 <= m < k ==> components((#[trigger] marked@[m])@) != char_vecs(dir@),
        decreases marked.len() - k,
    {
        let cm = components_of(&chars_of(marked[k].as_str()));
        if comps_eq(&cm, dir) {
            return true;
        }
        k += 1;
    }
    false
}

fn dir_is_category_folder_exec(cs: &Vec<Vec<char>>, marked: &Vec<String>) -> (r: bool)
    ensures
        r == dir_is_category_folder(char_vecs(cs@), marked@),
{
    let by_name = match comps_file_name_of(cs) {
        Some(name) => {
            let s = string_from_chars(&name);
            is_organized_category_folder_name(s.as_str())
        },
        None => false,
    };
    by_name || is_marked(cs, marked)
}

/// Whether `path` sits inside a category folder below `root`.  `marked`
/// lists the directories that the caller found to hold the marker file.
pub fn path_inside_organized_category_folder(path: &str, root: &str, marked: &Vec<String>) -> (r: bool)
    ensures
        r == spec_inside_organized_folder(path@, root@, marked@),
{
    let mut current = components_of(&chars_of(path));
    let cr = components_of(&chars_of(root));
    let n = current.len();
    if n == 0 {
        return false;
    }
    assert(char_vecs(current@).last() == current@[n - 1]@);
    if is_root_chars(&current[n - 1]) {
        return false;
    }
    let ghost all = char_vecs(current@);
    current.pop();
    assert(char_vecs(current@) =~= all.drop_last());
    loop
        invariant
            spec_inside_organized_folder(path@, root@, marked@) == organized_from(
                char_vecs(current@),
                char_vecs(cr@),
                marked@,
            ),
            char_vecs(cr@) == components(root@),
        decreases current@.len(),
    {
        if !(comps_prefix_of(&cr, &current) && !comps_eq(&current, &cr)) {
            return false;
        }
        if dir_is_category_folder_exec(&current, marked) {
            return true;
        }
        let m = current.len();
        if m == 0 {
            return false;
        }
        assert(char_vecs(current@).last() == current@[m - 1]@);
        if is_root_chars(&current[m - 1]) {
            return false;
        }
        let ghost before = char_vecs(current@);
        current.pop();
        assert(char_vecs(current@) =~= before.drop_last());
    }
}

/// The rank of a component in `std::path::Component`'s order: the root,
/// then ".", then "..", then names.
pub open spec fn comp_rank(c: Seq<char>) -> int {
    if c == seq!['/'] {
        0
    } else if c == seq!['.'] {
        1
    } else if c == seq!['.', '.'] {
        2
    } else {
        3
    }
}

/// Whether component `a` comes before `b`: by rank, and names in
/// code-point order.
pub open spec fn comp_lt(a: Seq<char>, b: Seq<char>) -> bool {
    comp_rank(a) < comp_rank(b) || (comp_rank(a) == 3 && comp_rank(b) == 3 && seq_lt(a, b))
}

/// Whether components `a` come before `b`, lexicographically (`Path`'s
/// order).
pub open spec fn comps_lt(a: Seq<Seq<char>>, b: Seq<Seq<char>>) -> bool
    decreases a.len(),
{
    if a.len() == 0 {
        b.len() > 0
    } else if b.len() == 0 {
        false
    } else if a[0] != b[0] {
        comp_lt(a[0], b[0])
    } else {
        comps_lt(a.drop_first(), b.drop_first())
    }
}

proof fn lemma_comp_lt_order(a: Seq<char>, b: Seq<char>, c: Seq<char>)
    ensures
        !comp_lt(a, a),
        comp_lt(a, b) && comp_lt(b, c) ==> comp_lt(a, c),
        a == b || comp_lt(a, b) || comp_lt(b, a),
{
    lemma_lt_irreflexive(a);
    if comp_lt(a, b) && comp_lt(b, c) && comp_rank(a) == 3 && comp_rank(c) == 3 {
        lemma_lt_transitive(a, b, c);
    }
    lemma_lt_total(a, b);
}

pub proof fn lemma_comps_lt_irreflexive(a: Seq<Seq<char>>)
    ensures
        !comps_lt(a, a),
    decreases a.len(),
{
    if a.len() > 0 {
        lemma_comps_lt_irreflexive(a.drop_first());
    }
}

pub proof fn lemma_comps_lt_transitive(a: Seq<Seq<char>>, b: Seq<Seq<char>>, c: Seq<Seq<char>>)
    requires
        comps_lt(a, b),
        comps_lt(b, c),
    ensures
        comps_lt(a, c),
    decreases a.len(),
{
    if a.len() > 0 && b.len() > 0 && c.len() > 0 {
        lemma_comp_lt_order(a[0], b[0], c[0]);
        lemma_comp_lt_order(b[0], c[0], a[0]);
        lemma_comp_lt_order(c[0], a[0], b[0]);
        if a[0] == b[0] && b[0] == c[0] {
            lemma_comps_lt_transitive(a.drop_first(), b.drop_first(), c.drop_first());
        }
    }
}

pub proof fn lemma_comps_lt_total(a: Seq<Seq<char>>, b: Seq<Seq<char>>)
    ensures
        a == b || comps_lt(a, b) || comps_lt(b, a),
    decreases a.len(),
{
    if a.len() > 0 && b.len() > 0 {
        lemma_comp_lt_order(a[0], b[0], b[0]);
        if a[0] == b[0] {
            lemma_comps_lt_total(a.drop_first(), b.drop_first());
            if a.drop_first() == b.drop_first() {
                assert(a =~= seq![a[0]] + a.drop_first());
                assert(b =~= seq![b[0]] + b.drop_first());
            }
        }
    } else if a.len() == 0 && b.len() == 0 {
        assert(a =~= b);
    }
}

fn comp_rank_of(c: &Vec<char>) -> (r: u8)
    ensures
        r == comp_rank(c@),
{
    if c.len() == 1 && c[0] == '/' {
        assert(c@ =~= seq!['/']);
        0
    } else if c.len() == 1 && c[0] == '.' {
        assert(c@ =~= seq!['.']);
        assert(c@ != seq!['/']);
        1
    } else if c.len() == 2 && c[0] == '.' && c[1] == '.' {
        assert(c@ =~= seq!['.', '.']);
        2
    } else {
        assert(c@ != seq!['/'] && c@ != seq!['.'] && c@ != seq!['.', '.']) by {
            if c.len() == 1 {
                assert(c@[0] != seq!['/'][0] && c@[0] != seq!['.'][0]);
            }
            if c.len() == 2 {
                assert(c@[0] != seq!['.', '.'][0] || c@[1] != seq!['.', '.'][1]);
            }
        }
        3
    }
}

fn comps_lt_of(a: &Vec<Vec<char>>, b: &Vec<Vec<char>>) -> (r: bool)
    ensures
        r == comps_lt(char_vecs(a@), char_vecs(b@)),
{
    let ghost va = char_vecs(a@);
    let ghost vb = char_vecs(b@);
    let mut i: usize = 0;
    assert(va.skip(0) =~= va);
    assert(vb.skip(0) =~= vb);
    while i < a.len() && i < b.len()
        invariant
            i <= a.len(),
            i <= b.len(),
            va == char_vecs(a@),
            vb == char_vecs(b@),
            comps_lt(va, vb) == comps_lt(va.skip(i as int), vb.skip(i as int)),
        decreases a.len() - i,
    {
        assert(va.skip(i as int)[0] == a@[i as int]@);
        assert(vb.skip(i as int)[0] == b@[i as int]@);
        if !chars_eq(&a[i], &b[i]) {
            let ra = comp_rank_of(&a[i]);
            let rb = comp_rank_of(&b[i]);
            if ra != rb {
                return ra < rb;
            }
            if ra != 3 {
                return false;
            }
            return chars_lt(&a[i], &b[i]);
        }
        assert(va.skip(i as int).drop_first() =~= va.skip(i + 1));
        assert(vb.skip(i as int).drop_first() =~= vb.skip(i + 1));
        i += 1;
    }
    i == a.len() && i < b.len()
}

/// A path to sort by its components, as `PathBuf`s sort.
pub struct PathKey {
    pub path: String,
}

impl SortKey for PathKey {
    open spec fn key_lt(a: Self, b: Self) -> bool {
        comps_lt(components(a.path@), components(b.path@))
    }

    proof fn lemma_key_lt_irreflexive(a: Self) {
        lemma_comps_lt_irreflexive(components(a.path@));
    }

    proof fn lemma_key_lt_transitive(a: Self, b: Self, c: Self) {
        lemma_comps_lt_transitive(components(a.path@), components(b.path@), components(c.path@));
    }

    proof fn lemma_key_le_transitive(a: Self, b: Self, c: Self) {
        let (ka, kb, kc) = (components(a.path@), components(b.path@), components(c.path@));
        lemma_comps_lt_total(ka, kb);
        if comps_lt(kc, ka) && comps_lt(ka, kb) {
            lemma_comps_lt_transitive(kc, ka, kb);
        }
    }

    fn sorts_before(&self, other: &Self) -> (r: bool) {
        let a = components_of(&chars_of(self.path.as_str()));
        let b = components_of(&chars_of(other.path.as_str()));
        comps_lt_of(&a, &b)
    }
}

pub open spec fn path_keys(files: Seq<String>) -> Seq<PathKey> {
    files.map_values(|f: String| PathKey { path: f })
}

pub open spec fn key_paths(keys: Seq<PathKey>) -> Seq<String> {
    keys.map_values(|k: PathKey| k.path)
}

/// The paths sorted (stably) by their components, as `Vec<PathBuf>::sort`
/// sorts them.
pub open spec fn sorted_paths(files: Seq<String>) -> Seq<String> {
    key_paths(stable_sorted(path_keys(files)))
}

pub proof fn lemma_sorted_paths_len(files: Seq<String>)
    ensures
        sorted_paths(files).len() == files.len(),
{
    lemma_stable_sorted_permutes(path_keys(files));
}

/// `files` sorted by their components.
pub fn sort_paths(files: Vec<String>) -> (r: Vec<String>)
    ensures
        r@ == sorted_paths(files@),
{
    let ghost original = files@;
    let mut keys: Vec<PathKey> = Vec::new();
    let mut rest = files;
    let mut i: usize = 0;
    let n = rest.len();
    while i < n
        invariant
            n == original.len(),
            i <= n,
            keys@ == path_keys(original.take(i as int)),
            rest@ == original,
        decreases n - i,
    {
        keys.push(PathKey { path: rest[i].clone() });
        assert(path_keys(original.take(i + 1)) =~= path_keys(original.take(i as int)).push(PathKey { path: original[i as int] }));
        i += 1;
    }
    assert(original.take(n as int) =~= original);
    let sorted = sort_stable(keys);
    let mut out: Vec<String> = Vec::new();
    let mut k: usize = 0;
    while k < sorted.len()
        invariant
            k <= sorted.len(),
            out@ == key_paths(sorted@.take(k as int)),
        decreases sorted.len() - k,
    {
        out.push(sorted[k].path.clone());
        assert(key_paths(sorted@.take(k + 1)) =~= key_paths(sorted@.take(k as int)).push(sorted@[k as int].path));
        k += 1;
    }
    assert(sorted@.take(sorted@.len() as int) =~= sorted@);
    out
}

} // verus!
