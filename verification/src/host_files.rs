//! Guest paths, preopened directories and the descriptor table behind the
//! runner's positional file imports.

use vstd::prelude::*;

use crate::cli::Preopen;
use crate::fd_table::FdTable;
use crate::host_abi::{self, HostConsts};
use vstd::utf8::{decode_utf8, valid_utf8};
use crate::text::{chars_of, lemma_split_slash_nonempty, same_chars, split_slash, starts_with_chars};

verus! {

/// Why a guest path cannot be used.
#[derive(Clone, Copy, Debug, PartialEq, Eq, Structural)]
pub enum PathError {
    /// The path is empty (the host's `ENOENT`).
    NotFound,
    /// The path leaves the directories the guest was given (`ENOTCAPABLE`).
    NotCapable,
}

pub open spec fn dot() -> Seq<char> {
    seq!['.']
}

pub open spec fn dot_dot() -> Seq<char> {
    seq!['.', '.']
}

pub open spec fn slash() -> Seq<char> {
    seq!['/']
}

/// A component that every host takes as a plain file name: no `\\` (a
/// separator or a root on Windows) and no `:` (a drive or a stream on
/// Windows).
pub open spec fn host_plain_name(c: Seq<char>) -> bool {
    !c.contains('\\') && !c.contains(':')
}

/// One step of resolving `.` and `..`: empty and `.` components are
/// dropped, `..` removes the last kept component and fails when there is
/// none, a component that is not a plain name on every host fails, and any
/// other component is kept.
pub open spec fn push_component(kept: Option<Seq<Seq<char>>>, c: Seq<char>) -> Option<
    Seq<Seq<char>>,
> {
    match kept {
        None => None,
        Some(parts) => {
            if c.len() == 0 || c == dot() {
                Some(parts)
            } else if c == dot_dot() {
                if parts.len() == 0 {
                    None
                } else {
                    Some(parts.drop_last())
                }
            } else if host_plain_name(c) {
                Some(parts.push(c))
            } else {
                None
            }
        },
    }
}

/// The components that remain of `comps` once `.` and `..` are resolved
/// from left to right; `None` when a `..` has nothing left to remove.
pub open spec fn fold_components(comps: Seq<Seq<char>>) -> Option<Seq<Seq<char>>>
    decreases comps.len(),
{
    if comps.len() == 0 {
        Some(Seq::empty())
    } else {
        push_component(fold_components(comps.drop_last()), comps.last())
    }
}

/// The components joined with `'/'` between them.
pub open spec fn join_slash(parts: Seq<Seq<char>>) -> Seq<char>
    decreases parts.len(),
{
    if parts.len() == 0 {
        Seq::empty()
    } else if parts.len() == 1 {
        parts[0]
    } else {
        join_slash(parts.drop_last()) + slash() + parts.last()
    }
}

/// The normal form of a guest path: `.` and `..` resolved, empty components
/// dropped, a leading `/` kept; `/` for an empty absolute result and `.` for
/// an empty relative one. A `..` with nothing left to remove, or a component
/// with `\\` or `:`, is refused.
pub open spec fn normalized_path(path: Seq<char>) -> Result<Seq<char>, PathError> {
    if path.len() == 0 {
        Err(PathError::NotFound)
    } else {
        match fold_components(split_slash(path)) {
            None => Err(PathError::NotCapable),
            Some(parts) => {
                let joined = join_slash(parts);
                if path[0] == '/' {
                    if joined.len() == 0 {
                        Ok(slash())
                    } else {
                        Ok(slash() + joined)
                    }
                } else if joined.len() == 0 {
                    Ok(dot())
                } else {
                    Ok(joined)
                }
            },
        }
    }
}

pub open spec fn ranges_view(chars: Seq<char>, ranges: Seq<(usize, usize)>) -> Seq<Seq<char>> {
    ranges.map_values(|r: (usize, usize)| chars.subrange(r.0 as int, r.1 as int))
}

pub open spec fn ranges_within(ranges: Seq<(usize, usize)>, n: int) -> bool {
    forall|k: int| 0 <= k < ranges.len() ==> #[trigger] ranges[k].0 <= ranges[k].1 <= n
}

/// Applies the component `chars[start..end]` to the kept components.
fn apply_component(chars: &Vec<char>, parts: &mut Vec<(usize, usize)>, start: usize, end: usize) -> (ok: bool)
    requires
        start <= end <= chars.len(),
        ranges_within(old(parts)@, chars.len() as int),
    ensures
        ranges_within(final(parts)@, chars.len() as int),
        ok ==> push_component(
            Some(ranges_view(chars@, old(parts)@)),
            chars@.subrange(start as int, end as int),
        ) == Some(ranges_view(chars@, final(parts)@)),
        !ok ==> push_component(
            Some(ranges_view(chars@, old(parts)@)),
            chars@.subrange(start as int, end as int),
        ) is None,
{
    let ghost c = chars@.subrange(start as int, end as int);
    let len = end - start;
    if len == 0 {
        return true;
    }
    if len == 1 && chars[start] == '.' {
        assert(c =~= dot());
        return true;
    }
    if len == 2 && chars[start] == '.' && chars[start + 1] == '.' {
        assert(c =~= dot_dot());
        if parts.len() == 0 {
            return false;
        }
        parts.pop();
        assert(parts@ =~= old(parts)@.drop_last());
        assert(forall|k: int| 0 <= k < parts@.len() ==> parts@[k] == old(parts)@[k]);
        assert(ranges_view(chars@, parts@) =~= ranges_view(chars@, old(parts)@).drop_last());
        return true;
    }
    assert(c != dot()) by {
        if len == 1 {
            assert(c[0] == chars@[start as int]);
        } else {
            assert(c.len() != dot().len());
        }
    }
    assert(c != dot_dot()) by {
        if len == 2 {
            assert(c[0] == chars@[start as int]);
            assert(c[1] == chars@[start + 1]);
        } else {
            assert(c.len() != dot_dot().len());
        }
    }
    let mut k = start;
    while k < end
        invariant
            start <= k <= end <= chars.len(),
            c == chars@.subrange(start as int, end as int),
            parts@ == old(parts)@,
            ranges_within(old(parts)@, chars.len() as int),
            c != dot() && c != dot_dot() && c.len() > 0,
            forall|j: int| start <= j < k ==> chars@[j] != '\\' && chars@[j] != ':',
        decreases end - k,
    {
        if chars[k] == '\\' || chars[k] == ':' {
            assert(c[k - start] == chars@[k as int]);
            assert(!host_plain_name(c));
            return false;
        }
        k += 1;
    }
    assert(host_plain_name(c)) by {
        assert forall|j: int| 0 <= j < c.len() implies c[j] != '\\' && c[j] != ':' by {
            assert(c[j] == chars@[start + j]);
        }
    }
    parts.push((start, end));
    assert(ranges_view(chars@, parts@) =~= ranges_view(chars@, old(parts)@).push(c));
    true
}

proof fn lemma_join_slash_take(parts: Seq<Seq<char>>, k: int)
    requires
        0 <= k < parts.len(),
    ensures
        join_slash(parts.take(k + 1)) == if k == 0 {
            parts[0]
        } else {
            join_slash(parts.take(k)) + slash() + parts[k]
        },
{
    assert(parts.take(k + 1).drop_last() =~= parts.take(k));
    if k == 0 {
        assert(parts.take(1)[0] == parts[0]);
    }
}

/// Joins the components `path[r.0..r.1]` of `ranges` with `'/'`.
fn join_ranges(path: &str, ranges: &Vec<(usize, usize)>) -> (joined: String)
    requires
        ranges_within(ranges@, path@.len() as int),
    ensures
        joined@ == join_slash(ranges_view(path@, ranges@)),
{
    let ghost parts = ranges_view(path@, ranges@);
    let mut joined = String::new();
    let mut k: usize = 0;
    proof {
        reveal_strlit("/");
        assert(parts.take(0) =~= Seq::<Seq<char>>::empty());
    }
    while k < ranges.len()
        invariant
            k <= ranges.len(),
            parts == ranges_view(path@, ranges@),
            ranges_within(ranges@, path@.len() as int),
            joined@ == join_slash(parts.take(k as int)),
        decreases ranges.len() - k,
    {
        let (start, end) = ranges[k];
        assert(ranges@[k as int].0 <= ranges@[k as int].1 <= path@.len());
        proof {
            lemma_join_slash_take(parts, k as int);
            reveal_strlit("/");
        }
        if k > 0 {
            joined.append("/");
        }
        joined.append(path.substring_char(start, end));
        k += 1;
    }
    assert(parts.take(ranges.len() as int) =~= parts);
    joined
}

proof fn lemma_fold_none_absorbs(comps: Seq<Seq<char>>, k: int)
    requires
        0 <= k <= comps.len(),
        fold_components(comps.take(k)) is None,
    ensures
        fold_components(comps) is None,
    decreases comps.len(),
{
    if comps.len() == k {
        assert(comps.take(k) =~= comps);
    } else {
        assert(comps.drop_last().take(k) =~= comps.take(k));
        lemma_fold_none_absorbs(comps.drop_last(), k);
    }
}

/// The pieces completed in a prefix of `s` begin the pieces of `s`.
proof fn lemma_split_prefix(s: Seq<char>, j: int)
    requires
        0 <= j <= s.len(),
    ensures
        split_slash(s.take(j)).len() >= 1,
        split_slash(s.take(j)).len() <= split_slash(s).len(),
        split_slash(s.take(j)).drop_last() =~= split_slash(s).drop_last().take(
            split_slash(s.take(j)).len() - 1,
        ),
    decreases s.len(),
{
    lemma_split_slash_nonempty(s.take(j));
    lemma_split_slash_nonempty(s);
    if j == s.len() {
        assert(s.take(j) =~= s);
    } else {
        let t = s.drop_last();
        assert(t.take(j) =~= s.take(j));
        lemma_split_prefix(t, j);
        lemma_split_slash_nonempty(t);
    }
}

/// Puts a guest path in normal form (see `normalized_path`): resolves `.`
/// and `..`, drops empty components and keeps a leading `/`. An empty path
/// is `NotFound`; a `..` that would leave the path's root is `NotCapable`.
pub fn normalize_guest_path(path: &str) -> (res: Result<String, PathError>)
    ensures
        match res {
            Ok(s) => normalized_path(path@) == Ok::<Seq<char>, PathError>(s@),
            Err(e) => normalized_path(path@) == Err::<Seq<char>, PathError>(e),
        },
{
    let chars = chars_of(path);
    let n = chars.len();
    if n == 0 {
        return Err(PathError::NotFound);
    }
    let absolute = chars[0] == '/';
    let mut parts: Vec<(usize, usize)> = Vec::new();
    let mut start: usize = 0;
    let mut i: usize = 0;
    proof {
        assert(chars@.take(0) =~= Seq::<char>::empty());
        assert(split_slash(chars@.take(0)) =~= seq![Seq::<char>::empty()]);
        assert(split_slash(chars@.take(0)).drop_last() =~= Seq::<Seq<char>>::empty());
        assert(ranges_view(chars@, parts@) =~= Seq::<Seq<char>>::empty());
        assert(chars@.subrange(0, 0) =~= Seq::<char>::empty());
    }
    while i < n
        invariant
            n == chars.len(),
            chars@ == path@,
            start <= i <= n,
            ranges_within(parts@, n as int),
            split_slash(chars@.take(i as int)).len() >= 1,
            chars@.subrange(start as int, i as int) == split_slash(chars@.take(i as int)).last(),
            fold_components(split_slash(chars@.take(i as int)).drop_last()) == Some(
                ranges_view(chars@, parts@),
            ),
        decreases n - i,
    {
        let ghost prev = split_slash(chars@.take(i as int));
        proof {
            assert(chars@.take(i + 1).drop_last() =~= chars@.take(i as int));
            assert(chars@.take(i + 1).last() == chars@[i as int]);
        }
        if chars[i] == '/' {
            proof {
                assert(split_slash(chars@.take(i + 1)) == prev.push(Seq::empty()));
                assert(split_slash(chars@.take(i + 1)).drop_last() =~= prev);
                assert(prev.drop_last().push(prev.last()) =~= prev);
            }
            if !apply_component(&chars, &mut parts, start, i) {
                proof {
                    lemma_split_prefix(chars@, i + 1);
                    lemma_fold_none_absorbs(split_slash(chars@).drop_last(), prev.len() as int);
                    let all = split_slash(chars@);
                    lemma_split_slash_nonempty(chars@);
                    assert(all.drop_last().push(all.last()) =~= all);
                }
                return Err(PathError::NotCapable);
            }
            start = i + 1;
            proof {
                assert(chars@.subrange(start as int, start as int) =~= Seq::<char>::empty());
                assert(split_slash(chars@.take(i + 1)).last() == Seq::<char>::empty());
                lemma_split_slash_nonempty(chars@.take(i + 1));
            }
        } else {
            proof {
                let next = prev.update(prev.len() - 1, prev.last().push(chars@[i as int]));
                assert(split_slash(chars@.take(i + 1)) == next);
                assert(next.drop_last() =~= prev.drop_last());
                assert(chars@.subrange(start as int, i + 1) =~= prev.last().push(chars@[i as int]));
            }
        }
        i += 1;
    }
    proof {
        assert(chars@.take(n as int) =~= chars@);
        lemma_split_slash_nonempty(chars@);
        let all = split_slash(chars@);
        assert(all.drop_last().push(all.last()) =~= all);
        assert(fold_components(all) == push_component(
            fold_components(all.drop_last()),
            all.last(),
        ));
    }
    if !apply_component(&chars, &mut parts, start, n) {
        return Err(PathError::NotCapable);
    }
    let joined = join_ranges(path, &parts);
    proof {
        reveal_strlit("/");
        reveal_strlit(".");
        assert(fold_components(split_slash(path@)) == Some(ranges_view(path@, parts@)));
        assert(path@[0] == chars@[0]);
    }
    assert("/"@ =~= slash());
    assert("."@ =~= dot());
    if absolute {
        let mut out = String::from_str("/");
        if joined.unicode_len() > 0 {
            out.append(joined.as_str());
        }
        Ok(out)
    } else if joined.unicode_len() == 0 {
        Ok(String::from_str("."))
    } else {
        Ok(joined)
    }
}

} // verus!

verus! {

/// A relative component appended to `path`: a `/` is put between the two
/// unless `path` is empty or already ends with one. For the plain names that
/// normalization keeps, this is the host path `PathBuf::push` names on every
/// host (Windows takes `/` as a separator too).
pub open spec fn push_path(path: Seq<char>, comp: Seq<char>) -> Seq<char> {
    if path.len() == 0 || path.last() == '/' {
        path + comp
    } else {
        path + slash() + comp
    }
}

/// `root` with each component of `comps` pushed in turn, empty and `.`
/// components skipped.
pub open spec fn push_components(root: Seq<char>, comps: Seq<Seq<char>>) -> Seq<char>
    decreases comps.len(),
{
    if comps.len() == 0 {
        root
    } else {
        let p = push_components(root, comps.drop_last());
        let c = comps.last();
        if c.len() == 0 || c == dot() {
            p
        } else {
            push_path(p, c)
        }
    }
}

/// The host path of `suffix` (a `/`-separated guest path) under `root`.
pub open spec fn joined_host_path(root: Seq<char>, suffix: Seq<char>) -> Seq<char> {
    push_components(root, split_slash(suffix))
}

fn ends_with_slash(s: &String) -> (r: bool)
    ensures
        r == (s@.len() > 0 && s@.last() == '/'),
{
    let n = s.as_str().unicode_len();
    n > 0 && s.as_str().get_char(n - 1) == '/'
}

/// Appends the component `suffix[start..end]` to `out` (`push_path`),
/// skipping empty and `.` components.
fn push_piece(out: &mut String, suffix: &str, chars: &Vec<char>, start: usize, end: usize)
    requires
        chars@ == suffix@,
        start <= end <= chars.len(),
    ensures
        final(out)@ == {
            let c = suffix@.subrange(start as int, end as int);
            if c.len() == 0 || c == dot() {
                old(out)@
            } else {
                push_path(old(out)@, c)
            }
        },
{
    let ghost c = suffix@.subrange(start as int, end as int);
    if end == start {
        return;
    }
    if end - start == 1 && chars[start] == '.' {
        assert(c =~= dot());
        return;
    }
    assert(c != dot()) by {
        if end - start == 1 {
            assert(c[0] == chars@[start as int]);
        } else {
            assert(c.len() != dot().len());
        }
    }
    let sep = ends_with_slash(out);
    proof {
        reveal_strlit("/");
        assert("/"@ =~= slash());
    }
    if out.as_str().unicode_len() > 0 && !sep {
        out.append("/");
    }
    out.append(suffix.substring_char(start, end));
}

/// `root` with the components of the guest path `suffix` appended after `/`
/// separators (`push_path`); empty and `.` components are skipped.
pub fn join_suffix(root: &str, suffix: &str) -> (path: String)
    ensures
        path@ == joined_host_path(root@, suffix@),
{
    let chars = chars_of(suffix);
    let n = chars.len();
    let mut out = String::from_str(root);
    let mut start: usize = 0;
    let mut i: usize = 0;
    proof {
        assert(chars@.take(0) =~= Seq::<char>::empty());
        assert(split_slash(chars@.take(0)) =~= seq![Seq::<char>::empty()]);
        assert(split_slash(chars@.take(0)).drop_last() =~= Seq::<Seq<char>>::empty());
        assert(chars@.subrange(0, 0) =~= Seq::<char>::empty());
    }
    while i < n
        invariant
            n == chars.len(),
            chars@ == suffix@,
            start <= i <= n,
            split_slash(chars@.take(i as int)).len() >= 1,
            chars@.subrange(start as int, i as int) == split_slash(chars@.take(i as int)).last(),
            out@ == push_components(root@, split_slash(chars@.take(i as int)).drop_last()),
        decreases n - i,
    {
        let ghost prev = split_slash(chars@.take(i as int));
        proof {
            assert(chars@.take(i + 1).drop_last() =~= chars@.take(i as int));
            assert(chars@.take(i + 1).last() == chars@[i as int]);
        }
        if chars[i] == '/' {
            proof {
                assert(split_slash(chars@.take(i + 1)) == prev.push(Seq::empty()));
                assert(split_slash(chars@.take(i + 1)).drop_last() =~= prev);
                assert(prev.drop_last().push(prev.last()) =~= prev);
            }
            push_piece(&mut out, suffix, &chars, start, i);
            start = i + 1;
            proof {
                assert(chars@.subrange(start as int, start as int) =~= Seq::<char>::empty());
                lemma_split_slash_nonempty(chars@.take(i + 1));
            }
        } else {
            proof {
                let next = prev.update(prev.len() - 1, prev.last().push(chars@[i as int]));
                assert(split_slash(chars@.take(i + 1)) == next);
                assert(next.drop_last() =~= prev.drop_last());
                assert(chars@.subrange(start as int, i + 1) =~= prev.last().push(chars@[i as int]));
            }
        }
        i += 1;
    }
    proof {
        assert(chars@.take(n as int) =~= chars@);
        lemma_split_slash_nonempty(chars@);
        let all = split_slash(chars@);
        assert(all.drop_last().push(all.last()) =~= all);
    }
    push_piece(&mut out, suffix, &chars, start, n);
    out
}

} // verus!

verus! {

/// A preopened directory: the normalized guest path and the host directory.
pub struct PreopenMapping {
    pub guest: String,
    pub host: String,
}

impl PreopenMapping {
    pub open spec fn view(&self) -> (Seq<char>, Seq<char>) {
        (self.guest@, self.host@)
    }

    fn duplicate(&self) -> (r: PreopenMapping)
        ensures
            r.view() == self.view(),
    {
        PreopenMapping { guest: self.guest.clone(), host: self.host.clone() }
    }
}

pub open spec fn mappings_view(v: Seq<PreopenMapping>) -> Seq<(Seq<char>, Seq<char>)> {
    v.map_values(|m: PreopenMapping| m.view())
}

/// The sort key of a preopen: the length in UTF-8 bytes of its guest path
/// (`str::len`).
pub open spec fn guest_len(e: (Seq<char>, Seq<char>)) -> int {
    (vstd::utf8::encode_utf8(e.0).len() as usize) as int
}

/// Where an entry with key `k` goes in a list sorted by decreasing key:
/// after every entry whose key is at least `k`.
pub open spec fn insert_pos(sorted: Seq<(Seq<char>, Seq<char>)>, k: int) -> int
    decreases sorted.len(),
{
    if sorted.len() == 0 {
        0
    } else if guest_len(sorted[0]) < k {
        0
    } else {
        1 + insert_pos(sorted.drop_first(), k)
    }
}

/// `entries` sorted by decreasing guest length; entries of equal length
/// keep their order (the stable sort of the original list).
pub open spec fn sort_by_guest_len(entries: Seq<(Seq<char>, Seq<char>)>) -> Seq<
    (Seq<char>, Seq<char>),
>
    decreases entries.len(),
{
    if entries.len() == 0 {
        Seq::empty()
    } else {
        let sorted = sort_by_guest_len(entries.drop_last());
        sorted.insert(insert_pos(sorted, guest_len(entries.last())), entries.last())
    }
}

proof fn lemma_insert_pos_bounds(sorted: Seq<(Seq<char>, Seq<char>)>, k: int)
    ensures
        0 <= insert_pos(sorted, k) <= sorted.len(),
    decreases sorted.len(),
{
    if sorted.len() > 0 {
        lemma_insert_pos_bounds(sorted.drop_first(), k);
    }
}

proof fn lemma_sort_len(entries: Seq<(Seq<char>, Seq<char>)>)
    ensures
        sort_by_guest_len(entries).len() == entries.len(),
    decreases entries.len(),
{
    if entries.len() > 0 {
        lemma_sort_len(entries.drop_last());
        lemma_insert_pos_bounds(sort_by_guest_len(entries.drop_last()), guest_len(entries.last()));
    }
}

fn guest_byte_len(m: &PreopenMapping) -> (n: usize)
    ensures
        n == guest_len(m.view()),
{
    let g = m.guest.as_str();
    assert(g@ == m.guest@);
    g.len()
}

/// Sorts preopens by decreasing guest length, keeping the order of entries
/// of equal length (a stable insertion sort).
fn sort_mappings(entries: &Vec<PreopenMapping>) -> (sorted: Vec<PreopenMapping>)
    ensures
        mappings_view(sorted@) == sort_by_guest_len(mappings_view(entries@)),
{
    let ghost input = mappings_view(entries@);
    let mut sorted: Vec<PreopenMapping> = Vec::new();
    let mut i: usize = 0;
    proof {
        assert(input.take(0) =~= Seq::<(Seq<char>, Seq<char>)>::empty());
        assert(mappings_view(sorted@) =~= Seq::<(Seq<char>, Seq<char>)>::empty());
    }
    while i < entries.len()
        invariant
            i <= entries.len(),
            input == mappings_view(entries@),
            mappings_view(sorted@) == sort_by_guest_len(input.take(i as int)),
        decreases entries.len() - i,
    {
        let item = entries[i].duplicate();
        let key = guest_byte_len(&item);
        let ghost current = mappings_view(sorted@);
        let mut pos: usize = 0;
        proof {
            assert(current.skip(0) =~= current);
        }
        while pos < sorted.len() && guest_byte_len(&sorted[pos]) >= key
            invariant
                pos <= sorted.len(),
                current == mappings_view(sorted@),
                key == guest_len(item.view()),
                insert_pos(current, key as int) == pos + insert_pos(current.skip(pos as int), key as int),
            decreases sorted.len() - pos,
        {
            proof {
                assert(current.skip(pos as int)[0] == current[pos as int]);
                assert(current.skip(pos as int).drop_first() =~= current.skip(pos + 1));
            }
            pos += 1;
        }
        proof {
            if pos < sorted.len() {
                assert(current.skip(pos as int)[0] == current[pos as int]);
            }
            assert(input.take(i + 1).drop_last() =~= input.take(i as int));
            assert(input.take(i + 1).last() == item.view());
        }
        sorted.insert(pos, item);
        proof {
            assert(mappings_view(sorted@) =~= current.insert(pos as int, item.view()));
        }
        i += 1;
    }
    assert(input.take(entries.len() as int) =~= input);
    sorted
}

} // verus!

verus! {

/// The part of the normalized guest path `n` below the preopen `guest`, if
/// `guest` covers it: `.` covers every relative path, `/` covers every path
/// (dropping a leading `/`), and any other guest path covers itself and the
/// paths that continue it after a `/`.
pub open spec fn preopen_suffix(guest: Seq<char>, n: Seq<char>) -> Option<Seq<char>> {
    let absolute = n.len() > 0 && n[0] == '/';
    if guest == dot() && !absolute {
        Some(n)
    } else if guest == slash() {
        Some(
            if absolute {
                n.drop_first()
            } else {
                n
            },
        )
    } else if n == guest {
        Some(Seq::empty())
    } else if guest.len() < n.len() && n.take(guest.len() as int) == guest && n[guest.len() as int]
        == '/' {
        Some(n.skip(guest.len() as int + 1))
    } else {
        None
    }
}

/// The host path of the normalized guest path `n`: the first preopen that
/// covers it decides; `NotCapable` when none does.
pub open spec fn resolve_in(entries: Seq<(Seq<char>, Seq<char>)>, n: Seq<char>) -> Result<
    Seq<char>,
    PathError,
>
    decreases entries.len(),
{
    if entries.len() == 0 {
        Err(PathError::NotCapable)
    } else {
        match preopen_suffix(entries[0].0, n) {
            Some(suffix) => Ok(joined_host_path(entries[0].1, suffix)),
            None => resolve_in(entries.drop_first(), n),
        }
    }
}

/// The host path of the guest path `path` under the preopens `entries`.
pub open spec fn resolved_host_path(entries: Seq<(Seq<char>, Seq<char>)>, path: Seq<char>) -> Result<
    Seq<char>,
    PathError,
> {
    match normalized_path(path) {
        Err(e) => Err(e),
        Ok(n) => resolve_in(entries, n),
    }
}

/// The part of `normalized` below the preopen `guest`, if `guest` covers it.
fn covered_suffix(guest: &str, normalized: &str) -> (r: Option<String>)
    ensures
        match r {
            Some(s) => preopen_suffix(guest@, normalized@) == Some(s@),
            None => preopen_suffix(guest@, normalized@) is None,
        },
{
    let g = chars_of(guest);
    let n = chars_of(normalized);
    let dot_chars = vec!['.'];
    let slash_chars = vec!['/'];
    assert(dot_chars@ =~= dot());
    assert(slash_chars@ =~= slash());
    let absolute = n.len() > 0 && n[0] == '/';
    if same_chars(&g, &dot_chars) && !absolute {
        return Some(normalized.to_owned());
    }
    if same_chars(&g, &slash_chars) {
        if absolute {
            let rest = normalized.substring_char(1, n.len());
            assert(rest@ =~= normalized@.drop_first());
            return Some(rest.to_owned());
        }
        return Some(normalized.to_owned());
    }
    if same_chars(&n, &g) {
        return Some(String::new());
    }
    if g.len() < n.len() && starts_with_chars(&n, &g) && n[g.len()] == '/' {
        let rest = normalized.substring_char(g.len() + 1, n.len());
        assert(rest@ =~= normalized@.skip(g.len() + 1));
        return Some(rest.to_owned());
    }
    None
}

/// The preopened directories, longest guest path first.
pub struct PreopenTable {
    entries: Vec<PreopenMapping>,
}

impl View for PreopenTable {
    type V = Seq<(Seq<char>, Seq<char>)>;

    closed spec fn view(&self) -> Seq<(Seq<char>, Seq<char>)> {
        mappings_view(self.entries@)
    }
}

impl PreopenTable {
    /// Resolves a guest path to a host path: the path is normalized, then the
    /// first preopen (the one with the longest guest path) that covers it
    /// gives the host directory the rest of the path is joined onto. The
    /// host path stays below that directory (`within_preopen`).
    pub fn resolve(&self, guest_path: &str) -> (res: Result<String, PathError>)
        ensures
            match res {
                Ok(p) => resolved_host_path(self@, guest_path@) == Ok::<Seq<char>, PathError>(p@),
                Err(e) => resolved_host_path(self@, guest_path@) == Err::<Seq<char>, PathError>(e),
            },
            res matches Ok(p) ==> within_preopen(self@, guest_path@, p@),
    {
        let normalized = match normalize_guest_path(guest_path) {
            Ok(n) => n,
            Err(e) => return Err(e),
        };
        let ghost n = normalized@;
        let mut i: usize = 0;
        proof {
            assert(self@.skip(0) =~= self@);
        }
        while i < self.entries.len()
            invariant
                i <= self.entries.len(),
                n == normalized@,
                normalized_path(guest_path@) == Ok::<Seq<char>, PathError>(n),
                resolve_in(self@, n) == resolve_in(self@.skip(i as int), n),
            decreases self.entries.len() - i,
        {
            let entry = &self.entries[i];
            proof {
                assert(self@.skip(i as int)[0] == entry.view());
                assert(self@.skip(i as int).drop_first() =~= self@.skip(i + 1));
            }
            match covered_suffix(entry.guest.as_str(), normalized.as_str()) {
                Some(suffix) => {
                    let p = join_suffix(entry.host.as_str(), suffix.as_str());
                    proof {
                        assert(resolved_host_path(self@, guest_path@) == Ok::<Seq<char>, PathError>(
                            p@,
                        ));
                        lemma_resolved_path_stays_in_preopen(self@, guest_path@);
                    }
                    return Ok(p);
                },
                None => {},
            }
            i += 1;
        }
        Err(PathError::NotCapable)
    }
}

} // verus!

verus! {

/// The preopens `given` (guest, host) with their guest paths normalized; the
/// first guest path that does not normalize decides the error.
pub open spec fn normalized_entries(given: Seq<(Seq<char>, Seq<char>)>) -> Result<
    Seq<(Seq<char>, Seq<char>)>,
    PathError,
>
    decreases given.len(),
{
    if given.len() == 0 {
        Ok(Seq::empty())
    } else {
        match normalized_entries(given.drop_last()) {
            Err(e) => Err(e),
            Ok(done) => match normalized_path(given.last().0) {
                Err(e) => Err(e),
                Ok(g) => Ok(done.push((g, given.last().1))),
            },
        }
    }
}

/// The preopens of a configuration, in the order given: the working
/// directory as `.` when there is one, then the `--preopen` values.
pub open spec fn configured_preopens(
    default_dir: Option<Seq<char>>,
    given: Seq<(Seq<char>, Seq<char>)>,
) -> Result<Seq<(Seq<char>, Seq<char>)>, PathError> {
    let first = match default_dir {
        Some(d) => seq![(dot(), d)],
        None => Seq::empty(),
    };
    match normalized_entries(given) {
        Err(e) => Err(e),
        Ok(rest) => Ok(first + rest),
    }
}

pub open spec fn dir_view(dir: Option<String>) -> Option<Seq<char>> {
    match dir {
        Some(d) => Some(d@),
        None => None,
    }
}

/// The (guest, host) pairs of `--preopen` values.
pub open spec fn preopen_pairs(preopens: Seq<Preopen>) -> Seq<(Seq<char>, Seq<char>)> {
    preopens.map_values(|p: Preopen| (p.guest@, p.host@))
}

proof fn lemma_dot_is_normal()
    ensures
        normalized_path(dot()) == Ok::<Seq<char>, PathError>(dot()),
{
    let d = dot();
    assert(d.drop_last() =~= Seq::<char>::empty());
    assert(split_slash(Seq::<char>::empty()) =~= seq![Seq::<char>::empty()]);
    assert(split_slash(d) =~= seq![d]);
    assert(seq![d].drop_last() =~= Seq::<Seq<char>>::empty());
    assert(seq![d].last() == d);
    assert(fold_components(Seq::<Seq<char>>::empty()) == Some(Seq::<Seq<char>>::empty()));
    assert(fold_components(seq![d]) == push_component(
        Some(Seq::<Seq<char>>::empty()),
        d,
    ));
    assert(fold_components(seq![d]) == Some(Seq::<Seq<char>>::empty()));
    assert(join_slash(Seq::<Seq<char>>::empty()) =~= Seq::<char>::empty());
}

impl PreopenTable {
    /// The preopen table of a configuration: the working directory
    /// `default_dir` as guest `.` when given, then each `--preopen` with its
    /// guest path normalized, sorted by decreasing guest length (stable).
    pub fn new(default_dir: Option<String>, preopens: &Vec<Preopen>) -> (res: Result<
        PreopenTable,
        PathError,
    >)
        ensures
            match res {
                Ok(t) => configured_preopens(
                    dir_view(default_dir),
                    preopen_pairs(preopens@),
                ) matches Ok(c) && t@ == sort_by_guest_len(c),
                Err(e) => configured_preopens(
                    dir_view(default_dir),
                    preopen_pairs(preopens@),
                ) == Err::<Seq<(Seq<char>, Seq<char>)>, PathError>(e),
            },
    {
        let mut entries: Vec<PreopenMapping> = Vec::new();
        let ghost first: Seq<(Seq<char>, Seq<char>)> = Seq::empty();
        match default_dir {
            Some(dir) => {
                proof {
                    lemma_dot_is_normal();
                    reveal_strlit(".");
                    assert("."@ =~= dot());
                }
                let guest = match normalize_guest_path(".") {
                    Ok(g) => g,
                    Err(_) => String::from_str("."),
                };
                proof {
                    first = seq![(dot(), dir@)];
                }
                entries.push(PreopenMapping { guest, host: dir });
            },
            None => {},
        }
        let ghost given = preopen_pairs(preopens@);
        proof {
            assert(mappings_view(entries@) =~= first);
            assert(given.take(0) =~= Seq::<(Seq<char>, Seq<char>)>::empty());
        }
        let mut i: usize = 0;
        while i < preopens.len()
            invariant
                i <= preopens.len(),
                given == preopen_pairs(preopens@),
                first == match default_dir {
                    Some(d) => seq![(dot(), d@)],
                    None => Seq::<(Seq<char>, Seq<char>)>::empty(),
                },
                normalized_entries(given.take(i as int)) matches Ok(done) && mappings_view(
                    entries@,
                ) == first + done,
            decreases preopens.len() - i,
        {
            let p = &preopens[i];
            proof {
                assert(given.take(i + 1).drop_last() =~= given.take(i as int));
                assert(given.take(i + 1).last() == (p.guest@, p.host@));
            }
            let guest = match normalize_guest_path(p.guest.as_str()) {
                Ok(g) => g,
                Err(e) => {
                    proof {
                        lemma_entries_error_absorbs(given, i + 1);
                    }
                    return Err(e);
                },
            };
            let ghost before = mappings_view(entries@);
            entries.push(PreopenMapping { guest, host: p.host.clone() });
            proof {
                assert(mappings_view(entries@) =~= before.push((guest@, p.host@)));
                let done = normalized_entries(given.take(i as int))->Ok_0;
                assert(first + done.push((guest@, p.host@)) =~= (first + done).push(
                    (guest@, p.host@),
                ));
            }
            i += 1;
        }
        proof {
            assert(given.take(preopens.len() as int) =~= given);
        }
        let sorted = sort_mappings(&entries);
        Ok(PreopenTable { entries: sorted })
    }
}

proof fn lemma_entries_error_absorbs(given: Seq<(Seq<char>, Seq<char>)>, k: int)
    requires
        0 <= k <= given.len(),
        normalized_entries(given.take(k)) is Err,
    ensures
        normalized_entries(given) == normalized_entries(given.take(k)),
    decreases given.len(),
{
    if given.len() == k {
        assert(given.take(k) =~= given);
    } else {
        assert(given.drop_last().take(k) =~= given.take(k));
        lemma_entries_error_absorbs(given.drop_last(), k);
    }
}

} // verus!

verus! {

/// Entries ordered by non-increasing guest length.
pub open spec fn sorted_by_guest_len(entries: Seq<(Seq<char>, Seq<char>)>) -> bool {
    forall|i: int, j: int|
        0 <= i < j < entries.len() ==> guest_len(#[trigger] entries[i]) >= guest_len(
            #[trigger] entries[j],
        )
}

proof fn lemma_insert_pos(sorted: Seq<(Seq<char>, Seq<char>)>, k: int)
    ensures
        0 <= insert_pos(sorted, k) <= sorted.len(),
        forall|j: int| 0 <= j < insert_pos(sorted, k) ==> guest_len(#[trigger] sorted[j]) >= k,
        insert_pos(sorted, k) < sorted.len() ==> guest_len(sorted[insert_pos(sorted, k)]) < k,
    decreases sorted.len(),
{
    if sorted.len() > 0 && guest_len(sorted[0]) >= k {
        let rest = sorted.drop_first();
        lemma_insert_pos(rest, k);
        assert forall|j: int| 0 <= j < insert_pos(sorted, k) implies guest_len(
            #[trigger] sorted[j],
        ) >= k by {
            if j > 0 {
                assert(sorted[j] == rest[j - 1]);
            }
        }
        if insert_pos(sorted, k) < sorted.len() {
            assert(sorted[insert_pos(sorted, k)] == rest[insert_pos(rest, k)]);
        }
    }
}

/// Law: the preopen table is ordered by non-increasing guest length.
pub proof fn lemma_sort_is_sorted(entries: Seq<(Seq<char>, Seq<char>)>)
    ensures
        sorted_by_guest_len(sort_by_guest_len(entries)),
    decreases entries.len(),
{
    if entries.len() > 0 {
        let r = sort_by_guest_len(entries.drop_last());
        let x = entries.last();
        let k = guest_len(x);
        lemma_sort_is_sorted(entries.drop_last());
        lemma_insert_pos(r, k);
        let p = insert_pos(r, k);
        let s = r.insert(p, x);
        assert(s == sort_by_guest_len(entries));
        assert forall|i: int, j: int| 0 <= i < j < s.len() implies guest_len(#[trigger] s[i])
            >= guest_len(#[trigger] s[j]) by {
            if j < p {
                assert(s[i] == r[i] && s[j] == r[j]);
            } else if j == p {
                assert(s[i] == r[i]);
            } else if i < p {
                assert(s[i] == r[i] && s[j] == r[j - 1]);
                assert(guest_len(r[i]) >= k);
                assert(guest_len(r[p]) < k);
                if j - 1 > p {
                    assert(guest_len(r[p]) >= guest_len(r[j - 1]));
                }
            } else if i == p {
                assert(s[j] == r[j - 1]);
                if j - 1 > p {
                    assert(guest_len(r[p]) >= guest_len(r[j - 1]));
                }
            } else {
                assert(s[i] == r[i - 1] && s[j] == r[j - 1]);
            }
        }
    }
}

/// Law: the preopen table holds exactly the configured preopens, each as
/// often as it was configured.
pub proof fn lemma_sort_is_permutation(entries: Seq<(Seq<char>, Seq<char>)>)
    ensures
        sort_by_guest_len(entries).to_multiset() == entries.to_multiset(),
    decreases entries.len(),
{
    broadcast use vstd::seq_lib::to_multiset_insert, vstd::seq_lib::to_multiset_build;

    if entries.len() == 0 {
        assert(sort_by_guest_len(entries) =~= entries);
    } else {
        let r = sort_by_guest_len(entries.drop_last());
        let x = entries.last();
        lemma_sort_is_permutation(entries.drop_last());
        lemma_insert_pos(r, guest_len(x));
        assert(entries.drop_last().push(x) =~= entries);
    }
}

/// Entry `k` is the first of `entries` that covers `n`.
pub open spec fn first_cover(entries: Seq<(Seq<char>, Seq<char>)>, n: Seq<char>, k: int) -> bool {
    &&& 0 <= k < entries.len()
    &&& forall|j: int| 0 <= j < k ==> preopen_suffix(#[trigger] entries[j].0, n) is None
    &&& preopen_suffix(entries[k].0, n) is Some
}

/// How `resolve_in` decides: the first covering entry, or none at all.
pub proof fn lemma_resolve_in_first_cover(entries: Seq<(Seq<char>, Seq<char>)>, n: Seq<char>)
    ensures
        resolve_in(entries, n) is Err <==> forall|j: int|
            0 <= j < entries.len() ==> preopen_suffix(#[trigger] entries[j].0, n) is None,
        resolve_in(entries, n) is Err ==> resolve_in(entries, n) == Err::<Seq<char>, PathError>(
            PathError::NotCapable,
        ),
        resolve_in(entries, n) is Ok ==> exists|k: int|
            #[trigger] first_cover(entries, n, k) && resolve_in(entries, n) == Ok::<
                Seq<char>,
                PathError,
            >(joined_host_path(entries[k].1, preopen_suffix(entries[k].0, n)->Some_0)),
    decreases entries.len(),
{
    if entries.len() > 0 {
        let rest = entries.drop_first();
        lemma_resolve_in_first_cover(rest, n);
        assert(forall|j: int| 0 <= j < rest.len() ==> rest[j] == entries[j + 1]);
        if preopen_suffix(entries[0].0, n) is Some {
            assert(first_cover(entries, n, 0));
        } else {
            if resolve_in(rest, n) is Ok {
                let k = choose|k: int|
                    #[trigger] first_cover(rest, n, k) && resolve_in(rest, n) == Ok::<
                        Seq<char>,
                        PathError,
                    >(joined_host_path(rest[k].1, preopen_suffix(rest[k].0, n)->Some_0));
                assert forall|j: int| 0 <= j < k + 1 implies preopen_suffix(
                    #[trigger] entries[j].0,
                    n,
                ) is None by {
                    if j > 0 {
                        assert(entries[j] == rest[j - 1]);
                    }
                }
                assert(first_cover(entries, n, k + 1));
            } else {
                assert forall|j: int| 0 <= j < entries.len() implies preopen_suffix(
                    #[trigger] entries[j].0,
                    n,
                ) is None by {
                    if j > 0 {
                        assert(entries[j] == rest[j - 1]);
                    }
                }
            }
        }
    }
}

/// Law (longest preopen wins): with the preopens `configured`, a normalized
/// guest path is refused exactly when no configured preopen covers it, and
/// otherwise it resolves under a configured preopen whose guest path is at
/// least as long, in bytes, as that of every configured preopen covering it.
pub proof fn lemma_resolve_longest_cover(configured: Seq<(Seq<char>, Seq<char>)>, n: Seq<char>)
    ensures
        resolve_in(sort_by_guest_len(configured), n) is Err <==> forall|j: int|
            0 <= j < configured.len() ==> preopen_suffix(#[trigger] configured[j].0, n) is None,
        resolve_in(sort_by_guest_len(configured), n) matches Ok(p) ==> exists|i: int|
            0 <= i < configured.len() && preopen_suffix(#[trigger] configured[i].0, n) is Some
                && p == joined_host_path(
                configured[i].1,
                preopen_suffix(configured[i].0, n)->Some_0,
            ) && forall|j: int|
                0 <= j < configured.len() && preopen_suffix(#[trigger] configured[j].0, n) is Some
                    ==> guest_len(configured[j]) <= guest_len(configured[i]),
{
    broadcast use vstd::seq_lib::to_multiset_contains;

    let table = sort_by_guest_len(configured);
    lemma_sort_is_sorted(configured);
    lemma_sort_is_permutation(configured);
    lemma_resolve_in_first_cover(table, n);
    assert forall|e: (Seq<char>, Seq<char>)| configured.contains(e) <==> table.contains(e) by {
        assert(configured.to_multiset().count(e) == table.to_multiset().count(e));
    }
    if resolve_in(table, n) is Err {
        assert forall|j: int| 0 <= j < configured.len() implies preopen_suffix(
            #[trigger] configured[j].0,
            n,
        ) is None by {
            assert(configured.contains(configured[j]));
            let m = choose|m: int| 0 <= m < table.len() && table[m] == configured[j];
            assert(preopen_suffix(table[m].0, n) is None);
        }
    } else {
        let k = choose|k: int|
            #[trigger] first_cover(table, n, k) && resolve_in(table, n) == Ok::<
                Seq<char>,
                PathError,
            >(joined_host_path(table[k].1, preopen_suffix(table[k].0, n)->Some_0));
        assert(table.contains(table[k]));
        let i = choose|i: int| 0 <= i < configured.len() && configured[i] == table[k];
        assert forall|j: int|
            0 <= j < configured.len() && preopen_suffix(#[trigger] configured[j].0, n)
                is Some implies guest_len(configured[j]) <= guest_len(configured[i]) by {
            assert(configured.contains(configured[j]));
            let m = choose|m: int| 0 <= m < table.len() && table[m] == configured[j];
            if m < k {
                assert(preopen_suffix(table[m].0, n) is None);
            } else if m > k {
                assert(guest_len(table[k]) >= guest_len(table[m]));
            }
        }
        assert(preopen_suffix(configured[i].0, n) is Some);
    }
}

} // verus!

verus! {

/// A component that normalization keeps: not empty, not `.` or `..`, free
/// of `/`, and a plain name on every host.
pub open spec fn plain_component(c: Seq<char>) -> bool {
    c.len() > 0 && c != dot() && c != dot_dot() && !c.contains('/') && host_plain_name(c)
}

proof fn lemma_split_pieces_no_slash(s: Seq<char>)
    ensures
        forall|k: int| 0 <= k < split_slash(s).len() ==> !(#[trigger] split_slash(s)[k]).contains('/'),
    decreases s.len(),
{
    lemma_split_slash_nonempty(s);
    if s.len() > 0 {
        let prev = split_slash(s.drop_last());
        lemma_split_pieces_no_slash(s.drop_last());
        lemma_split_slash_nonempty(s.drop_last());
        if s.last() != '/' {
            let l = prev.last().push(s.last());
            assert(!l.contains('/')) by {
                if l.contains('/') {
                    let j = choose|j: int| 0 <= j < l.len() && l[j] == '/';
                    assert(prev.last()[j] == '/');
                    assert(prev[prev.len() - 1].contains('/'));
                }
            }
        } else {
            assert(!Seq::<char>::empty().contains('/'));
        }
    }
}

proof fn lemma_fold_plain(comps: Seq<Seq<char>>)
    requires
        forall|k: int| 0 <= k < comps.len() ==> !(#[trigger] comps[k]).contains('/'),
    ensures
        fold_components(comps) matches Some(parts) ==> forall|k: int|
            0 <= k < parts.len() ==> plain_component(#[trigger] parts[k]),
    decreases comps.len(),
{
    if comps.len() > 0 {
        lemma_fold_plain(comps.drop_last());
        assert(forall|k: int| 0 <= k < comps.len() - 1 ==> comps.drop_last()[k] == comps[k]);
    }
}

proof fn lemma_fold_of_plain(parts: Seq<Seq<char>>)
    requires
        forall|k: int| 0 <= k < parts.len() ==> plain_component(#[trigger] parts[k]),
    ensures
        fold_components(parts) == Some(parts),
        fold_components(seq![Seq::<char>::empty()] + parts) == Some(parts),
    decreases parts.len(),
{
    let e = seq![Seq::<char>::empty()];
    if parts.len() == 0 {
        assert(e + parts =~= e);
        assert(e.drop_last() =~= Seq::<Seq<char>>::empty());
    } else {
        lemma_fold_of_plain(parts.drop_last());
        assert(parts.drop_last().push(parts.last()) =~= parts);
        assert((e + parts).drop_last() =~= e + parts.drop_last());
        assert((e + parts).last() == parts.last());
        assert(plain_component(parts[parts.len() - 1]));
    }
}

/// Splitting at a `/` splits the pieces: `split(a + "/" + b)` is
/// `split(a) + split(b)`.
proof fn lemma_split_concat(a: Seq<char>, b: Seq<char>)
    ensures
        split_slash(a + slash() + b) == split_slash(a) + split_slash(b),
    decreases b.len(),
{
    lemma_split_slash_nonempty(a);
    if b.len() == 0 {
        assert(a + slash() + b =~= a.push('/'));
        assert(a.push('/').drop_last() =~= a);
        assert(split_slash(b) =~= seq![Seq::<char>::empty()]);
        assert(split_slash(a).push(Seq::empty()) =~= split_slash(a) + seq![Seq::<char>::empty()]);
    } else {
        let s = a + slash() + b;
        lemma_split_concat(a, b.drop_last());
        lemma_split_slash_nonempty(b.drop_last());
        assert(s.drop_last() =~= a + slash() + b.drop_last());
        assert(s.last() == b.last());
        let pa = split_slash(a);
        let pb = split_slash(b.drop_last());
        if b.last() == '/' {
            assert((pa + pb).push(Seq::empty()) =~= pa + pb.push(Seq::empty()));
        } else {
            let joined = pa + pb;
            assert(joined.last() == pb.last());
            assert(joined.update(joined.len() - 1, joined.last().push(b.last())) =~= pa + pb.update(
                pb.len() - 1,
                pb.last().push(b.last()),
            ));
        }
    }
}

/// Joining components without `/` and splitting again gives them back.
proof fn lemma_split_join(parts: Seq<Seq<char>>)
    requires
        parts.len() >= 1,
        forall|k: int| 0 <= k < parts.len() ==> !(#[trigger] parts[k]).contains('/'),
    ensures
        split_slash(join_slash(parts)) == parts,
    decreases parts.len(),
{
    if parts.len() == 1 {
        lemma_split_no_slash(parts[0]);
        assert(seq![parts[0]] =~= parts);
    } else {
        let init = parts.drop_last();
        lemma_split_join(init);
        lemma_split_concat(join_slash(init), parts.last());
        lemma_split_no_slash(parts.last());
        assert(init + seq![parts.last()] =~= parts);
    }
}

proof fn lemma_split_no_slash(c: Seq<char>)
    requires
        !c.contains('/'),
    ensures
        split_slash(c) == seq![c],
    decreases c.len(),
{
    if c.len() == 0 {
        assert(c =~= Seq::<char>::empty());
    } else {
        let init = c.drop_last();
        assert(!init.contains('/')) by {
            if init.contains('/') {
                let j = choose|j: int| 0 <= j < init.len() && init[j] == '/';
                assert(c[j] == '/');
            }
        }
        lemma_split_no_slash(init);
        assert(c.last() != '/') by {
            assert(c[c.len() - 1] == c.last());
        }
        assert(init.push(c.last()) =~= c);
        assert(seq![init].update(0, init.push(c.last())) =~= seq![c]);
    }
}

/// The pieces of a normalized path: `/` gives two empty pieces, `.` the
/// piece `.`, and otherwise an absolute path gives an empty piece followed by
/// plain components, a relative one only plain components.
pub open spec fn normal_pieces(n: Seq<char>) -> bool {
    let pieces = split_slash(n);
    forall|k: int|
        0 <= k < pieces.len() ==> #[trigger] pieces[k] == Seq::<char>::empty() || pieces[k]
            == dot() || plain_component(pieces[k])
}

proof fn lemma_normalized_pieces(path: Seq<char>)
    requires
        normalized_path(path) is Ok,
    ensures
        normal_pieces(normalized_path(path)->Ok_0),
        normalized_path(normalized_path(path)->Ok_0) == normalized_path(path),
{
    let n = normalized_path(path)->Ok_0;
    lemma_split_pieces_no_slash(path);
    lemma_fold_plain(split_slash(path));
    let parts = fold_components(split_slash(path))->Some_0;
    let joined = join_slash(parts);
    let empty = Seq::<char>::empty();
    assert(forall|k: int| 0 <= k < parts.len() ==> !(#[trigger] parts[k]).contains('/'));
    if path[0] == '/' {
        if joined.len() == 0 {
            lemma_split_concat(empty, empty);
            assert(empty + slash() + empty =~= n);
            assert(split_slash(empty) =~= seq![empty]);
            assert(split_slash(n) =~= seq![empty, empty]);
            assert(seq![empty, empty].drop_last() =~= seq![empty]);
            lemma_fold_of_plain(Seq::<Seq<char>>::empty());
            assert(seq![empty] + Seq::<Seq<char>>::empty() =~= seq![empty]);
            assert(fold_components(seq![empty, empty]) == Some(Seq::<Seq<char>>::empty()));
            assert(join_slash(Seq::<Seq<char>>::empty()) =~= empty);
        } else {
            assert(parts.len() >= 1);
            lemma_split_join(parts);
            lemma_split_concat(empty, joined);
            assert(empty + slash() + joined =~= n);
            assert(split_slash(empty) =~= seq![empty]);
            lemma_fold_of_plain(parts);
            assert(n[0] == '/');
        }
    } else if joined.len() == 0 {
        lemma_dot_is_normal();
        lemma_split_no_slash(dot());
    } else {
        assert(parts.len() >= 1);
        lemma_split_join(parts);
        lemma_fold_of_plain(parts);
        assert(n[0] != '/') by {
            assert(n == joined);
            lemma_join_first_char(parts);
        }
    }
}

proof fn lemma_join_first_char(parts: Seq<Seq<char>>)
    requires
        parts.len() >= 1,
        forall|k: int| 0 <= k < parts.len() ==> plain_component(#[trigger] parts[k]),
    ensures
        join_slash(parts).len() > 0,
        join_slash(parts)[0] == parts[0][0],
    decreases parts.len(),
{
    if parts.len() > 1 {
        lemma_join_first_char(parts.drop_last());
    }
}

/// Law (shape): a guest path that normalizes keeps its leading `/` (or its
/// lack of one), and the components its normal form is made of (see
/// `normalized_path`) are plain names: none is empty, `.`, `..`, or holds
/// `/`, `\\` or `:`.
pub proof fn lemma_normal_form_shape(path: Seq<char>)
    requires
        normalized_path(path) is Ok,
    ensures
        fold_components(split_slash(path)) is Some,
        forall|k: int|
            0 <= k < fold_components(split_slash(path))->Some_0.len() ==> plain_component(
                #[trigger] fold_components(split_slash(path))->Some_0[k],
            ),
        normalized_path(path)->Ok_0.len() > 0,
        (normalized_path(path)->Ok_0[0] == '/') == (path[0] == '/'),
{
    lemma_split_pieces_no_slash(path);
    lemma_fold_plain(split_slash(path));
    let parts = fold_components(split_slash(path))->Some_0;
    if path[0] != '/' && parts.len() > 0 {
        lemma_join_first_char(parts);
        assert(plain_component(parts[0]));
        assert(parts[0][0] != '/') by {
            assert(parts[0].contains(parts[0][0]));
        }
    }
}

/// Law (what normalization keeps): a guest path made of names, `/` between
/// them and optionally one in front, where each name is non-empty, is not
/// `.` or `..` and holds no `/`, `\` or `:`, is already normal: normalization
/// gives it back unchanged. So only `\` and `:` (besides `.`, `..` and empty
/// components) make a component refused; any other character, `#` for
/// instance, is kept.
pub proof fn lemma_names_are_kept(names: Seq<Seq<char>>, absolute: bool)
    requires
        absolute || names.len() >= 1,
        forall|k: int|
            0 <= k < names.len() ==> {
                let c = #[trigger] names[k];
                &&& c.len() > 0
                &&& c != seq!['.']
                &&& c != seq!['.', '.']
                &&& forall|j: int| 0 <= j < c.len() ==> c[j] != '/' && c[j] != '\\' && c[j] != ':'
            },
    ensures
        ({
            let path = if absolute {
                seq!['/'] + join_slash(names)
            } else {
                join_slash(names)
            };
            normalized_path(path) == Ok::<Seq<char>, PathError>(path)
        }),
{
    let empty = Seq::<char>::empty();
    assert forall|k: int| 0 <= k < names.len() implies plain_component(#[trigger] names[k]) by {
        let c = names[k];
        assert(c != dot());
        assert(c != dot_dot());
        assert(!c.contains('/') && !c.contains('\\') && !c.contains(':')) by {
            if c.contains('/') || c.contains('\\') || c.contains(':') {
                let j = choose|j: int| 0 <= j < c.len() && (c[j] == '/' || c[j] == '\\' || c[j]
                    == ':');
                assert(c[j] != '/' && c[j] != '\\' && c[j] != ':');
            }
        }
    }
    assert forall|k: int| 0 <= k < names.len() implies !(#[trigger] names[k]).contains('/') by {
        assert(plain_component(names[k]));
    }
    lemma_fold_of_plain(names);
    let joined = join_slash(names);
    if absolute {
        let path = seq!['/'] + joined;
        assert(path =~= empty + slash() + joined);
        lemma_split_concat(empty, joined);
        assert(split_slash(empty) =~= seq![empty]);
        if names.len() == 0 {
            assert(joined =~= empty);
            assert(split_slash(joined) =~= seq![empty]);
            assert(seq![empty] + seq![empty] =~= seq![empty, empty]);
            assert(seq![empty, empty].drop_last() =~= seq![empty]);
            assert(seq![empty].drop_last() =~= Seq::<Seq<char>>::empty());
            assert(fold_components(seq![empty, empty]) == Some(Seq::<Seq<char>>::empty()));
            assert(path =~= slash());
        } else {
            lemma_split_join(names);
            lemma_join_first_char(names);
            assert(path[0] == '/');
        }
    } else {
        lemma_split_join(names);
        lemma_join_first_char(names);
        assert(names[0].len() > 0);
    }
}

/// Law (idempotence): a normalized guest path is its own normal form.
pub proof fn lemma_normalize_idempotent(path: Seq<char>)
    requires
        normalized_path(path) is Ok,
    ensures
        normalized_path(normalized_path(path)->Ok_0) == normalized_path(path),
{
    lemma_normalized_pieces(path);
}

/// A piece of a `/`-separated path that, joined onto a host directory, stays
/// below it: empty and `.` pieces are skipped, and the others are plain names
/// on every host (no `..`, no `\\`, no `:`).
pub open spec fn sandboxed_piece(c: Seq<char>) -> bool {
    c.len() == 0 || c == dot() || plain_component(c)
}

/// Law (sandbox): the part of a normalized guest path that a preopen joins
/// onto its host directory has only pieces that stay below that directory.
pub proof fn lemma_suffix_stays_below_preopen(path: Seq<char>, guest: Seq<char>)
    requires
        normalized_path(path) is Ok,
        preopen_suffix(guest, normalized_path(path)->Ok_0) is Some,
    ensures
        forall|k: int|
            0 <= k < split_slash(preopen_suffix(guest, normalized_path(path)->Ok_0)->Some_0).len()
                ==> sandboxed_piece(
                #[trigger] split_slash(preopen_suffix(guest, normalized_path(path)->Ok_0)->Some_0)[k],
            ),
{
    let n = normalized_path(path)->Ok_0;
    let suffix = preopen_suffix(guest, n)->Some_0;
    lemma_normalized_pieces(path);
    let pieces = split_slash(n);
    let absolute = n.len() > 0 && n[0] == '/';
    let empty = Seq::<char>::empty();
    assert forall|k: int| 0 <= k < pieces.len() implies sandboxed_piece(#[trigger] pieces[k]) by {
        assert(pieces[k] == Seq::<char>::empty() || pieces[k] == dot() || plain_component(
            pieces[k],
        ));
    }
    if guest == dot() && !absolute {
    } else if guest == slash() {
        if absolute {
            assert(n =~= empty + slash() + n.drop_first());
            lemma_split_concat(empty, n.drop_first());
            assert(forall|k: int|
                0 <= k < split_slash(n.drop_first()).len() ==> split_slash(n.drop_first())[k]
                    == pieces[k + 1]);
        }
    } else if n == guest {
        assert(split_slash(suffix) =~= seq![empty]);
    } else {
        let g = guest.len() as int;
        assert(n =~= n.take(g) + slash() + n.skip(g + 1));
        lemma_split_concat(n.take(g), n.skip(g + 1));
        let front = split_slash(n.take(g));
        assert(forall|k: int|
            0 <= k < split_slash(suffix).len() ==> split_slash(suffix)[k] == pieces[k
                + front.len()]);
    }
}

/// Pushing components onto `root` only ever extends it.
proof fn lemma_push_components_extends(root: Seq<char>, comps: Seq<Seq<char>>)
    ensures
        root.len() <= push_components(root, comps).len(),
        push_components(root, comps).take(root.len() as int) == root,
    decreases comps.len(),
{
    if comps.len() > 0 {
        lemma_push_components_extends(root, comps.drop_last());
        let p = push_components(root, comps.drop_last());
        let c = comps.last();
        if !(c.len() == 0 || c == dot()) {
            let q = push_path(p, c);
            assert(q.take(p.len() as int) =~= p);
            assert(q.take(root.len() as int) =~= p.take(root.len() as int));
        }
    }
}

/// `p`, the host path of the guest path `path`, is the host directory of the
/// first preopen of `entries` that covers the path, followed by the covered
/// rest of the path, whose pieces all stay below that directory.
pub open spec fn within_preopen(
    entries: Seq<(Seq<char>, Seq<char>)>,
    path: Seq<char>,
    p: Seq<char>,
) -> bool {
    exists|k: int|
        #[trigger] first_cover(entries, normalized_path(path)->Ok_0, k) && {
            let s = preopen_suffix(entries[k].0, normalized_path(path)->Ok_0)->Some_0;
            &&& p == joined_host_path(entries[k].1, s)
            &&& p.take(entries[k].1.len() as int) == entries[k].1
            &&& forall|j: int|
                0 <= j < split_slash(s).len() ==> sandboxed_piece(#[trigger] split_slash(s)[j])
        }
}

/// Law (sandbox): a guest path that resolves becomes the host directory of a
/// preopen that covers it, followed by the covered rest of the path, none of
/// whose components is `..` or anything but a plain name on every host: the
/// host path begins with that directory and never leaves it.
pub proof fn lemma_resolved_path_stays_in_preopen(
    entries: Seq<(Seq<char>, Seq<char>)>,
    path: Seq<char>,
)
    requires
        resolved_host_path(entries, path) is Ok,
    ensures
        within_preopen(entries, path, resolved_host_path(entries, path)->Ok_0),
{
    let n = normalized_path(path)->Ok_0;
    lemma_resolve_in_first_cover(entries, n);
    let k = choose|k: int|
        #[trigger] first_cover(entries, n, k) && resolve_in(entries, n) == Ok::<
            Seq<char>,
            PathError,
        >(joined_host_path(entries[k].1, preopen_suffix(entries[k].0, n)->Some_0));
    let s = preopen_suffix(entries[k].0, n)->Some_0;
    lemma_suffix_stays_below_preopen(path, entries[k].0);
    lemma_push_components_extends(entries[k].1, split_slash(s));
    assert(first_cover(entries, n, k));
}

} // verus!

verus! {

/// Guest descriptors of host files start here.
pub const GUEST_FD_BASE: i32 = 20_000;
/// The largest transfer one import call moves.
pub const MAX_IO_LEN: usize = 16 * 1024 * 1024;
/// The longest guest path, terminator excluded, that `open` reads.
pub const MAX_PATH_LEN: usize = 16 * 1024;

pub const WASI_O_APPEND: i32 = 0x0001;
pub const WASI_O_CREAT: i32 = 0x1000;
pub const WASI_O_DIRECTORY: i32 = 0x2000;
pub const WASI_O_EXCL: i32 = 0x4000;
pub const WASI_O_TRUNC: i32 = 0x8000;
pub const WASI_O_RDONLY: i32 = 0x0400_0000;
pub const WASI_O_WRONLY: i32 = 0x1000_0000;
pub const WASI_ENOTCAPABLE: i32 = 76;

/// The errors of the file imports. All but `NotCapable` are returned as the
/// host C library's errno value; `NotCapable` is the guest's `ENOTCAPABLE`.
#[derive(Clone, Copy, Debug, PartialEq, Eq, Structural)]
pub enum FileErrno {
    NotFound,
    IsDirectory,
    BadDescriptor,
    Invalid,
    Fault,
    NameTooLong,
    Overflow,
    Io,
    NotCapable,
}

/// The number an error is returned as, given the host's constants.
pub open spec fn file_errno_value(e: FileErrno, c: HostConsts) -> i32 {
    match e {
        FileErrno::NotFound => c.enoent,
        FileErrno::IsDirectory => c.eisdir,
        FileErrno::BadDescriptor => c.ebadf,
        FileErrno::Invalid => c.einval,
        FileErrno::Fault => c.efault,
        FileErrno::NameTooLong => c.enametoolong,
        FileErrno::Overflow => c.eoverflow,
        FileErrno::Io => c.eio,
        FileErrno::NotCapable => WASI_ENOTCAPABLE,
    }
}

impl FileErrno {
    /// The errno of a path error.
    pub fn from_path_error(e: PathError) -> (r: FileErrno)
        ensures
            r == (match e {
                PathError::NotFound => FileErrno::NotFound,
                PathError::NotCapable => FileErrno::NotCapable,
            }),
    {
        match e {
            PathError::NotFound => FileErrno::NotFound,
            PathError::NotCapable => FileErrno::NotCapable,
        }
    }

    /// The number this error is returned as, with the host's constants `c`.
    pub fn value_in(self, c: &HostConsts) -> (v: i32)
        ensures
            v == file_errno_value(self, *c),
    {
        match self {
            FileErrno::NotFound => c.enoent,
            FileErrno::IsDirectory => c.eisdir,
            FileErrno::BadDescriptor => c.ebadf,
            FileErrno::Invalid => c.einval,
            FileErrno::Fault => c.efault,
            FileErrno::NameTooLong => c.enametoolong,
            FileErrno::Overflow => c.eoverflow,
            FileErrno::Io => c.eio,
            FileErrno::NotCapable => WASI_ENOTCAPABLE,
        }
    }

    /// The number this error is returned as on this host: the host's errno
    /// of that name (`ENOTCAPABLE` for `NotCapable`), which can be negated
    /// into an error result.
    pub fn value(self) -> (v: i32)
        ensures
            v == file_errno_value(self, native_host_consts()),
            negatable_errno(v),
    {
        let c = host_consts();
        self.value_in(&c)
    }
}

/// An errno value that can be negated into an error result: neither 0 nor
/// `i32::MIN`.
pub open spec fn negatable_errno(e: i32) -> bool {
    e != 0 && e > i32::MIN
}

/// The host C library's values of the file imports: its errno constants
/// (named by `libc_errno_code` at their indexes: `EAGAIN` 5, `ENOENT` 33,
/// `EISDIR` 22, `EBADF` 8, `EINVAL` 20, `EFAULT` 15, `ENAMETOOLONG` 26,
/// `EOVERFLOW` 44, `EIO` 53) and the seek values 0, 1 and 2.
pub open spec fn native_host_consts() -> HostConsts {
    HostConsts {
        eagain: host_abi::libc_errno_code(5),
        enoent: host_abi::libc_errno_code(33),
        eisdir: host_abi::libc_errno_code(22),
        ebadf: host_abi::libc_errno_code(8),
        einval: host_abi::libc_errno_code(20),
        efault: host_abi::libc_errno_code(15),
        enametoolong: host_abi::libc_errno_code(26),
        eoverflow: host_abi::libc_errno_code(44),
        eio: host_abi::libc_errno_code(53),
        seek_set: 0,
        seek_cur: 1,
        seek_end: 2,
    }
}

/// What holds of the host C library's values on every target: each errno
/// can be negated, and `SEEK_SET`, `SEEK_CUR` and `SEEK_END` are 0, 1 and 2.
pub open spec fn host_consts_hold(c: HostConsts) -> bool {
    &&& negatable_errno(c.eagain)
    &&& negatable_errno(c.enoent)
    &&& negatable_errno(c.eisdir)
    &&& negatable_errno(c.ebadf)
    &&& negatable_errno(c.einval)
    &&& negatable_errno(c.efault)
    &&& negatable_errno(c.enametoolong)
    &&& negatable_errno(c.eoverflow)
    &&& negatable_errno(c.eio)
    &&& c.seek_set == 0
    &&& c.seek_cur == 1
    &&& c.seek_end == 2
}

/// The host C library's constants for the file imports: every errno can be
/// negated into an error result, and the seek values are 0, 1 and 2.
pub fn host_consts() -> (c: HostConsts)
    ensures
        c == native_host_consts(),
        host_consts_hold(c),
{
    host_abi::native_consts()
}

/// `-errno`, the form in which the imports return an error.
pub fn neg_errno(errno: i32) -> (r: i32)
    requires
        errno > i32::MIN,
    ensures
        r == -errno,
{
    -errno
}

/// The errno of a failed host I/O call: its OS error code, or the host's
/// `EIO` when it has none.
pub fn io_errno(raw_os_error: Option<i32>, c: &HostConsts) -> (e: i32)
    ensures
        e == match raw_os_error {
            Some(code) => code,
            None => c.eio,
        },
{
    match raw_os_error {
        Some(code) => code,
        None => c.eio,
    }
}

/// An I/O error carrying the OS error code `errno`.
pub fn io_error_from_errno(errno: i32) -> (e: std::io::Error)
    ensures
        e == host_abi::io_error_of_os_code(errno),
{
    host_abi::io_error_from_raw_os_error(errno)
}

/// A guest length, checked to be neither negative nor above `MAX_IO_LEN`.
pub fn checked_len(len: i32) -> (r: Result<usize, FileErrno>)
    ensures
        r == if 0 <= len <= MAX_IO_LEN {
            Ok::<usize, FileErrno>(len as usize)
        } else {
            Err::<usize, FileErrno>(FileErrno::Invalid)
        },
{
    if len < 0 {
        return Err(FileErrno::Invalid);
    }
    if len as u32 as usize > MAX_IO_LEN {
        return Err(FileErrno::Invalid);
    }
    Ok(len as u32 as usize)
}

/// The bytes `ptr .. ptr + len` of a guest memory of `memory_len` bytes:
/// a negative pointer or a range past the end is `Fault`, a bad length
/// `Invalid`.
pub fn checked_range(ptr: i32, len: i32, memory_len: usize) -> (r: Result<
    core::ops::Range<usize>,
    FileErrno,
>)
    ensures
        match r {
            Ok(range) => 0 <= ptr && 0 <= len <= MAX_IO_LEN && range.start == ptr && range.end
                == ptr + len && range.end <= memory_len,
            Err(e) => if ptr < 0 {
                e == FileErrno::Fault
            } else if !(0 <= len <= MAX_IO_LEN) {
                e == FileErrno::Invalid
            } else {
                e == FileErrno::Fault && ptr + len > memory_len
            },
        },
{
    if ptr < 0 {
        return Err(FileErrno::Fault);
    }
    let start = ptr as u32 as usize;
    let len = checked_len(len)?;
    let end = match start.checked_add(len) {
        Some(end) => end,
        None => return Err(FileErrno::Fault),
    };
    if end > memory_len {
        return Err(FileErrno::Fault);
    }
    Ok(start..end)
}

/// Where a guest C string is looked for: from `ptr` to `MAX_PATH_LEN` bytes
/// on, cut at the end of memory.
pub fn cstr_window(ptr: i32, memory_len: usize) -> (r: Result<core::ops::Range<usize>, FileErrno>)
    ensures
        match r {
            Ok(range) => 0 <= ptr < memory_len && range.start == ptr && range.end == if ptr
                + MAX_PATH_LEN <= memory_len {
                ptr + MAX_PATH_LEN
            } else {
                memory_len as int
            },
            Err(e) => e == FileErrno::Fault && (ptr < 0 || ptr >= memory_len),
        },
{
    if ptr < 0 {
        return Err(FileErrno::Fault);
    }
    let start = ptr as u32 as usize;
    if start >= memory_len {
        return Err(FileErrno::Fault);
    }
    let max_end = if start <= usize::MAX - MAX_PATH_LEN {
        start + MAX_PATH_LEN
    } else {
        usize::MAX
    };
    let end = if max_end < memory_len {
        max_end
    } else {
        memory_len
    };
    Ok(start..end)
}

/// The text of a C string whose bytes start `window`: up to the first NUL,
/// decoded as UTF-8.
#[verifier::opaque]
pub open spec fn cstr_text(window: Seq<u8>) -> Result<Seq<char>, FileErrno> {
    if exists|k: int| 0 <= k < window.len() && window[k] == 0 {
        let k = choose|k: int|
            0 <= k < window.len() && window[k] == 0 && forall|j: int| 0 <= j < k ==> window[j] != 0;
        if valid_utf8(window.take(k)) {
            Ok(decode_utf8(window.take(k)))
        } else {
            Err(FileErrno::Invalid)
        }
    } else {
        Err(FileErrno::NameTooLong)
    }
}

/// Reads the C string at the start of `window`: `NameTooLong` when it has no
/// NUL, `Invalid` when the bytes before the NUL are not UTF-8.
pub fn decode_cstr(window: &[u8]) -> (r: Result<String, FileErrno>)
    ensures
        match r {
            Ok(s) => cstr_text(window@) == Ok::<Seq<char>, FileErrno>(s@),
            Err(e) => cstr_text(window@) == Err::<Seq<char>, FileErrno>(e),
        },
{
    reveal(cstr_text);
    let mut bytes: Vec<u8> = Vec::new();
    let mut k: usize = 0;
    while k < window.len()
        invariant
            k <= window.len(),
            bytes@ == window@.take(k as int),
            forall|j: int| 0 <= j < k ==> window@[j] != 0,
        decreases window.len() - k,
    {
        if window[k] == 0 {
            proof {
                reveal(cstr_text);
                let w = window@;
                assert(0 <= k < w.len() && w[k as int] == 0);
                let c = choose|c: int|
                    0 <= c < w.len() && w[c] == 0 && forall|j: int| 0 <= j < c ==> w[j] != 0;
                if c < k {
                } else if c > k {
                }
                assert(c == k);
            }
            return match host_abi::utf8_to_string(bytes.as_slice()) {
                Some(s) => Ok(s),
                None => Err(FileErrno::Invalid),
            };
        }
        bytes.push(window[k]);
        k += 1;
        assert(bytes@ =~= window@.take(k as int));
    }
    Err(FileErrno::NameTooLong)
}

/// Where the window of a C string at `ptr` ends in a memory of
/// `memory_len` bytes.
pub open spec fn cstr_window_end(ptr: int, memory_len: int) -> int {
    if ptr + MAX_PATH_LEN <= memory_len {
        ptr + MAX_PATH_LEN
    } else {
        memory_len
    }
}

/// The guest C string at `ptr` in `memory`, at most `MAX_PATH_LEN` bytes
/// before its NUL.
pub fn read_cstr(memory: &[u8], ptr: i32) -> (r: Result<String, FileErrno>)
    ensures
        match r {
            Ok(s) => 0 <= ptr < memory@.len() && cstr_text(
                memory@.subrange(ptr as int, cstr_window_end(ptr as int, memory@.len() as int)),
            ) == Ok::<Seq<char>, FileErrno>(s@),
            Err(e) => if ptr < 0 || ptr >= memory@.len() {
                e == FileErrno::Fault
            } else {
                cstr_text(
                    memory@.subrange(ptr as int, cstr_window_end(ptr as int, memory@.len() as int)),
                ) == Err::<Seq<char>, FileErrno>(e)
            },
        },
{
    let range = match cstr_window(ptr, memory.len()) {
        Ok(range) => range,
        Err(e) => return Err(e),
    };
    assert(range.end == cstr_window_end(ptr as int, memory@.len() as int));
    let mut window: Vec<u8> = Vec::new();
    let mut i = range.start;
    while i < range.end
        invariant
            range.start <= i <= range.end <= memory@.len(),
            window@ == memory@.subrange(range.start as int, i as int),
        decreases range.end - i,
    {
        window.push(memory[i]);
        i += 1;
        assert(window@ =~= memory@.subrange(range.start as int, i as int));
    }
    decode_cstr(window.as_slice())
}

} // verus!

verus! {

/// How a host file is opened (the `OpenOptions` that `open` sets).
#[derive(Clone, Copy, Debug, PartialEq, Eq, Structural)]
pub struct OpenMode {
    pub read: bool,
    pub write: bool,
    pub append: bool,
    pub create: bool,
    pub create_new: bool,
    pub truncate: bool,
}

/// The open mode of the guest flags `flags`: write-only when the `WRONLY`
/// bit is set, reading when the `RDONLY` bit is set or writing is not;
/// `CREAT` with `EXCL` creates a new file only, `CREAT` alone may create.
pub open spec fn open_mode_of(flags: i32) -> OpenMode {
    let write = flags & WASI_O_WRONLY != 0;
    let create = flags & WASI_O_CREAT != 0;
    let excl = flags & WASI_O_EXCL != 0;
    OpenMode {
        read: flags & WASI_O_RDONLY != 0 || !write,
        write: write,
        append: flags & WASI_O_APPEND != 0,
        create: create && !excl,
        create_new: create && excl,
        truncate: flags & WASI_O_TRUNC != 0,
    }
}

/// Law (open flags): each open-mode bit follows its WASI flag alone: the
/// file is truncated exactly when `O_TRUNC` (0x8000) is set and appended to
/// exactly when `O_APPEND` (1) is set, whatever the other flags; it is written
/// exactly when `O_WRONLY` (0x1000_0000) is set and read when `O_RDONLY`
/// (0x0400_0000) is set or it is not written; `O_CREAT` (0x1000) creates,
/// a new file only when `O_EXCL` (0x4000) is set too.
pub proof fn lemma_open_mode_bits(flags: i32)
    ensures
        open_mode_of(flags).truncate == (flags & 0x8000 != 0),
        open_mode_of(flags).append == (flags & 1 != 0),
        open_mode_of(flags).write == (flags & 0x1000_0000 != 0),
        open_mode_of(flags).read == (flags & 0x0400_0000 != 0 || flags & 0x1000_0000 == 0),
        open_mode_of(flags).create == (flags & 0x1000 != 0 && flags & 0x4000 == 0),
        open_mode_of(flags).create_new == (flags & 0x1000 != 0 && flags & 0x4000 != 0),
{
}

/// A resolved `open`: the host path and how to open it.
pub struct OpenRequest {
    pub host_path: String,
    pub mode: OpenMode,
}

/// The decisions of the `open` import before the host is asked: the guest
/// path is resolved under the preopens (its errors come first), a directory
/// open is refused with `IsDirectory`, and the flags give the open mode.
pub fn plan_open(preopens: &PreopenTable, guest_path: &str, flags: i32) -> (r: Result<
    OpenRequest,
    FileErrno,
>)
    ensures
        match resolved_host_path(preopens@, guest_path@) {
            Err(e) => r == Err::<OpenRequest, FileErrno>(
                match e {
                    PathError::NotFound => FileErrno::NotFound,
                    PathError::NotCapable => FileErrno::NotCapable,
                },
            ),
            Ok(p) => if flags & WASI_O_DIRECTORY != 0 {
                r == Err::<OpenRequest, FileErrno>(FileErrno::IsDirectory)
            } else {
                r matches Ok(req) && req.host_path@ == p && req.mode == open_mode_of(flags)
            },
        },
        r matches Ok(req) ==> within_preopen(preopens@, guest_path@, req.host_path@),
{
    let host_path = match preopens.resolve(guest_path) {
        Ok(path) => path,
        Err(e) => return Err(FileErrno::from_path_error(e)),
    };
    if flags & WASI_O_DIRECTORY != 0 {
        return Err(FileErrno::IsDirectory);
    }
    let write = flags & WASI_O_WRONLY != 0;
    let read = flags & WASI_O_RDONLY != 0 || !write;
    let create = flags & WASI_O_CREAT != 0;
    let excl = flags & WASI_O_EXCL != 0;
    let mode = OpenMode {
        read,
        write,
        append: flags & WASI_O_APPEND != 0,
        create: create && !excl,
        create_new: create && excl,
        truncate: flags & WASI_O_TRUNC != 0,
    };
    Ok(OpenRequest { host_path, mode })
}

/// Closes a guest file descriptor: `0`, or `-EBADF` when it is not open.
pub fn close<T>(files: &mut FdTable<T>, fd: i32, c: &HostConsts) -> (rc: i32)
    requires
        c.ebadf > i32::MIN,
    ensures
        final(files).entries() == old(files).entries().remove(fd),
        final(files).next_fd() == old(files).next_fd(),
        old(files).wf() ==> final(files).wf(),
        rc == if old(files).entries().contains_key(fd) {
            0
        } else {
            -c.ebadf
        },
{
    match files.remove(fd) {
        Some(_) => 0,
        None => neg_errno(c.ebadf),
    }
}

/// The return value of a host transfer of `n` bytes: `n`, or `-EOVERFLOW`
/// when `n` does not fit in an `i32`.
pub fn io_count_rc(n: usize, c: &HostConsts) -> (rc: i32)
    requires
        c.eoverflow > i32::MIN,
    ensures
        rc == if n <= i32::MAX {
            n as int
        } else {
            -c.eoverflow
        },
{
    if n <= i32::MAX as usize {
        n as i32
    } else {
        neg_errno(c.eoverflow)
    }
}

/// Where a seek goes (`std::io::SeekFrom`).
#[derive(Clone, Copy, Debug, PartialEq, Eq, Structural)]
pub enum SeekTarget {
    Start(u64),
    Current(i64),
    End(i64),
}

/// The seek of the host's `whence` value: `SEEK_SET` with a non-negative
/// offset, `SEEK_CUR` or `SEEK_END`; anything else is `Invalid`.
pub open spec fn seek_target_of(offset: i64, whence: i32, c: HostConsts) -> Result<
    SeekTarget,
    FileErrno,
> {
    if whence == c.seek_set {
        if offset >= 0 {
            Ok(SeekTarget::Start(offset as u64))
        } else {
            Err(FileErrno::Invalid)
        }
    } else if whence == c.seek_cur {
        Ok(SeekTarget::Current(offset))
    } else if whence == c.seek_end {
        Ok(SeekTarget::End(offset))
    } else {
        Err(FileErrno::Invalid)
    }
}

/// Law (seek): with the host's seek values (0, 1, 2), `SEEK_SET` goes to
/// the offset itself for every offset from 0 on, 0 included, and refuses a
/// negative one; `SEEK_CUR` and `SEEK_END` take every offset as it is; any
/// other `whence` is refused.
pub proof fn lemma_seek_targets(offset: i64, whence: i32, c: HostConsts)
    requires
        host_consts_hold(c),
    ensures
        whence == 0 && offset >= 0 ==> seek_target_of(offset, whence, c) == Ok::<
            SeekTarget,
            FileErrno,
        >(SeekTarget::Start(offset as u64)),
        whence == 0 && offset < 0 ==> seek_target_of(offset, whence, c) == Err::<
            SeekTarget,
            FileErrno,
        >(FileErrno::Invalid),
        whence == 1 ==> seek_target_of(offset, whence, c) == Ok::<SeekTarget, FileErrno>(
            SeekTarget::Current(offset),
        ),
        whence == 2 ==> seek_target_of(offset, whence, c) == Ok::<SeekTarget, FileErrno>(
            SeekTarget::End(offset),
        ),
        !(0 <= whence <= 2) ==> seek_target_of(offset, whence, c) == Err::<SeekTarget, FileErrno>(
            FileErrno::Invalid,
        ),
{
}

/// Decodes the arguments of the `seek` import.
pub fn seek_target(offset: i64, whence: i32, c: &HostConsts) -> (r: Result<
    SeekTarget,
    FileErrno,
>)
    ensures
        r == seek_target_of(offset, whence, *c),
{
    if whence == c.seek_set {
        if offset >= 0 {
            Ok(SeekTarget::Start(offset as u64))
        } else {
            Err(FileErrno::Invalid)
        }
    } else if whence == c.seek_cur {
        Ok(SeekTarget::Current(offset))
    } else if whence == c.seek_end {
        Ok(SeekTarget::End(offset))
    } else {
        Err(FileErrno::Invalid)
    }
}

/// The return value of a seek that reached `pos`: `pos`, or `-EOVERFLOW`
/// when it does not fit in an `i64`.
pub fn seek_position_rc(pos: u64, c: &HostConsts) -> (rc: i64)
    requires
        c.eoverflow > i32::MIN,
    ensures
        rc == if pos <= i64::MAX {
            pos as int
        } else {
            -c.eoverflow
        },
{
    if pos <= i64::MAX as u64 {
        pos as i64
    } else {
        neg_errno(c.eoverflow) as i64
    }
}

/// The new length of the `truncate` import: a negative size is `Invalid`.
pub fn truncate_size(size: i64) -> (r: Result<u64, FileErrno>)
    ensures
        r == if size >= 0 {
            Ok::<u64, FileErrno>(size as u64)
        } else {
            Err::<u64, FileErrno>(FileErrno::Invalid)
        },
{
    if size >= 0 {
        Ok(size as u64)
    } else {
        Err(FileErrno::Invalid)
    }
}

} // verus!
