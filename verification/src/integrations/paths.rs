//! Paths: which are safe to follow, and how they are taken apart and put together.

use vstd::prelude::*;
use vstd::string::*;

use crate::integrations::IntegrationError;
use crate::text::{char_count, has_char, quoted, same, slice, split, to_chars};

verus! {

/// How deep folders are followed into a provider's tree.
pub const MAX_LIST_DEPTH: usize = 32;

/// A path segment that does not name an entry.
pub open spec fn bad_segment(s: Seq<char>) -> bool {
    s.len() == 0 || s == "."@ || s == ".."@
}

/// Whether a segment begins with a drive letter and a colon.
pub open spec fn has_drive(s: Seq<char>) -> bool {
    s.len() >= 2 && ('A' <= s[0] <= 'Z' || 'a' <= s[0] <= 'z') && s[1] == ':'
}

/// Why a relative path could lead out of the directory it is relative to, if it could: the first
/// reason that applies.
pub open spec fn path_fault(path: Seq<char>) -> Option<Seq<char>> {
    let parts = crate::text::split_on(path, '/');
    if path.len() == 0 {
        Some("empty"@)
    } else if path.contains('\0') {
        Some("NUL byte"@)
    } else if path.contains('\\') {
        Some("backslash"@)
    } else if path[0] == '/' {
        Some("absolute path"@)
    } else if has_drive(parts[0]) {
        Some("drive prefix"@)
    } else if exists|i: int| 0 <= i < parts.len() && bad_segment(#[trigger] parts[i]) {
        Some("empty, '.' or '..' segment"@)
    } else {
        None
    }
}

/// The error for a path that is refused.
pub open spec fn refusal(path: Seq<char>, why: Seq<char>) -> Seq<char> {
    crate::text::debug_text(path) + ": "@ + why
}

fn refuse<'a>(path: &str, why: &str) -> (r: Result<Vec<&'a str>, IntegrationError>)
    ensures
        r matches Err(e) && e@ == crate::integrations::IntegrationErrorView::InvalidPath(
            refusal(path@, why@),
        ),
{
    let mut text = quoted(path);
    text.push_str(": ");
    text.push_str(why);
    Err(IntegrationError::InvalidPath(text))
}

/// Split a *relative* sync path into components, rejecting anything that could escape the sync
/// root: absolute paths, `..`/`.`/empty segments, backslashes, NUL, drive prefixes. Remote file
/// names are attacker-controlled, so every local path is built from this.
pub fn safe_components(path: &str) -> (r: Result<Vec<&str>, IntegrationError>)
    ensures
        match path_fault(path@) {
            None => r matches Ok(parts) && crate::text::slice_texts(parts@)
                == crate::text::split_on(path@, '/'),
            Some(why) => r matches Err(e) && e@
                == crate::integrations::IntegrationErrorView::InvalidPath(refusal(path@, why)),
        },
{
    if path.is_empty() {
        return refuse(path, "empty");
    }
    if has_char(path, '\0') {
        return refuse(path, "NUL byte");
    }
    if has_char(path, '\\') {
        return refuse(path, "backslash");
    }
    if to_chars(path)[0] == '/' {
        return refuse(path, "absolute path");
    }
    let parts = split(path, '/');
    let ghost all = crate::text::slice_texts(parts@);
    proof {
        crate::text::lemma_split_nonempty(path@, '/');
        assert(all[0] == parts@[0]@);
    }
    let first = to_chars(parts[0]);
    if first.len() >= 2 && (('A' <= first[0] && first[0] <= 'Z') || ('a' <= first[0] && first[0]
        <= 'z')) && first[1] == ':' {
        return refuse(path, "drive prefix");
    }
    let mut i: usize = 0;
    while i < parts.len()
        invariant
            i <= parts@.len(),
            all == crate::text::slice_texts(parts@),
            all == crate::text::split_on(path@, '/'),
            path@.len() > 0,
            !path@.contains('\0'),
            !path@.contains('\\'),
            path@[0] != '/',
            !has_drive(all[0]),
            forall|j: int| 0 <= j < i ==> !bad_segment(#[trigger] all[j]),
        decreases parts@.len() - i,
    {
        let part = parts[i];
        assert(all[i as int] == part@);
        if part.is_empty() || same(part, ".") || same(part, "..") {
            return refuse(path, "empty, '.' or '..' segment");
        }
        i += 1;
    }
    Ok(parts)
}

/// Whether a name is one safe path segment.
pub open spec fn safe_name(name: Seq<char>) -> bool {
    path_fault(name) is None && !name.contains('/')
}

/// Whether a name is one safe path segment.
pub fn is_safe_name(name: &str) -> (r: bool)
    ensures
        r == safe_name(name@),
{
    safe_components(name).is_ok() && !has_char(name, '/')
}

/// A provider's path, relative to its root: exactly one leading slash means the root.
pub open spec fn unrooted(path: Seq<char>) -> Seq<char> {
    if path.len() > 0 && path[0] == '/' {
        path.skip(1)
    } else {
        path
    }
}

/// Components of a provider path. Providers root paths at `/` (e.g. `/Notes/a.pdf`), meaning the
/// sync root, so exactly one leading slash is stripped before validation.
pub fn cloud_path_components(cloud_path: &str) -> (r: Result<Vec<&str>, IntegrationError>)
    ensures
        match path_fault(unrooted(cloud_path@)) {
            None => r matches Ok(parts) && crate::text::slice_texts(parts@)
                == crate::text::split_on(unrooted(cloud_path@), '/'),
            Some(why) => r matches Err(e) && e@
                == crate::integrations::IntegrationErrorView::InvalidPath(
                refusal(unrooted(cloud_path@), why),
            ),
        },
{
    let n: usize = char_count(cloud_path);
    if n > 0 && to_chars(cloud_path)[0] == '/' {
        let rest = slice(cloud_path, 1, n);
        assert(rest@ =~= unrooted(cloud_path@));
        safe_components(rest)
    } else {
        safe_components(cloud_path)
    }
}

/// `base` with the entry `name` of it.
pub open spec fn entry_of(base: Seq<char>, name: Seq<char>) -> Seq<char> {
    if base.len() == 0 {
        name
    } else if base.last() == '/' {
        base + name
    } else {
        base + "/"@ + name
    }
}

/// `base`, and in it the entries `names`, each in the one before.
pub open spec fn descend(base: Seq<char>, names: Seq<Seq<char>>) -> Seq<char>
    decreases names.len(),
{
    if names.len() == 0 {
        base
    } else {
        entry_of(descend(base, names.drop_last()), names.last())
    }
}

/// `base` with the entry `name` of it.
pub fn join_path(base: &str, name: &str) -> (r: String)
    ensures
        r@ == entry_of(base@, name@),
{
    let n: usize = char_count(base);
    let mut out = base.to_owned();
    if n > 0 && to_chars(base)[n - 1] != '/' {
        out.push_str("/");
    }
    out.push_str(name);
    proof {
        assert(Seq::<char>::empty() + name@ =~= name@);
        if base@.len() == 0 {
            assert(base@ =~= Seq::empty());
        }
    }
    out
}

/// Local destination for a provider path, which stays under `base`.
pub fn local_path_for(base: &str, cloud_path: &str) -> (r: Result<String, IntegrationError>)
    ensures
        match path_fault(unrooted(cloud_path@)) {
            None => r matches Ok(p) && p@ == descend(
                base@,
                crate::text::split_on(unrooted(cloud_path@), '/'),
            ),
            Some(why) => r matches Err(e) && e@
                == crate::integrations::IntegrationErrorView::InvalidPath(
                refusal(unrooted(cloud_path@), why),
            ),
        },
{
    let parts = match cloud_path_components(cloud_path) {
        Ok(p) => p,
        Err(e) => {
            return Err(e);
        },
    };
    let ghost names = crate::text::slice_texts(parts@);
    let mut out = base.to_owned();
    let mut i: usize = 0;
    assert(names.take(0) =~= Seq::empty());
    while i < parts.len()
        invariant
            i <= parts@.len(),
            names == crate::text::slice_texts(parts@),
            out@ == descend(base@, names.take(i as int)),
        decreases parts@.len() - i,
    {
        assert(names.take(i as int + 1).drop_last() =~= names.take(i as int));
        assert(names.take(i as int + 1).last() == parts@[i as int]@);
        out = join_path(out.as_str(), parts[i]);
        i += 1;
    }
    assert(names.take(i as int) =~= names);
    Ok(out)
}

/// Going down into entries is appending their names, with slashes between.
proof fn lemma_descend(base: Seq<char>, names: Seq<Seq<char>>)
    requires
        names.len() > 0,
        forall|i: int|
            0 <= i < names.len() ==> (#[trigger] names[i]).len() > 0 && !names[i].contains('/'),
    ensures
        descend(base, names) == entry_of(base, crate::text::join_with(names, "/"@)),
        descend(base, names).len() > 0,
        descend(base, names).last() != '/',
    decreases names.len(),
{
    let last = names.last();
    assert(last == names[names.len() - 1]);
    assert(last.contains(last[last.len() - 1]));
    reveal_strlit("/");
    let rest = names.drop_last();
    if rest.len() == 0 {
        assert(descend(base, rest) == base);
    } else {
        assert forall|i: int| 0 <= i < rest.len() implies (#[trigger] rest[i]).len() > 0
            && !rest[i].contains('/') by {
            assert(rest[i] == names[i]);
        }
        lemma_descend(base, rest);
        let before = crate::text::join_with(rest, "/"@);
        assert(entry_of(base, before) + "/"@ + last =~= entry_of(base, before + "/"@ + last));
    }
}

/// Whatever a provider calls a file, its local path is `base` followed by names of entries, none
/// of which is empty, `.`, `..`, or holds a slash, a backslash or a NUL.
pub proof fn law_local_paths_stay_under_base(base: Seq<char>, cloud_path: Seq<char>)
    requires
        path_fault(unrooted(cloud_path)) is None,
    ensures
        ({
            let names = crate::text::split_on(unrooted(cloud_path), '/');
            &&& names.len() > 0
            &&& descend(base, names) == entry_of(base, crate::text::join_with(names, "/"@))
            &&& base.is_prefix_of(descend(base, names))
            &&& base != descend(base, names)
            &&& forall|i: int|
                0 <= i < names.len() ==> !bad_segment(#[trigger] names[i]) && !names[i].contains(
                    '/',
                )
        }),
{
    let names = crate::text::split_on(unrooted(cloud_path), '/');
    crate::text::lemma_split_nonempty(unrooted(cloud_path), '/');
    crate::text::lemma_pieces_hold_no_separator(unrooted(cloud_path), '/');
    assert forall|i: int| 0 <= i < names.len() implies (#[trigger] names[i]).len() > 0
        && !names[i].contains('/') by {
        assert(!bad_segment(names[i]));
    }
    lemma_descend(base, names);
    let tail = crate::text::join_with(names, "/"@);
    lemma_join_is_longer(names);
    assert(base =~= entry_of(base, tail).subrange(0, base.len() as int));
}

proof fn lemma_join_is_longer(names: Seq<Seq<char>>)
    requires
        names.len() > 0,
        forall|i: int| 0 <= i < names.len() ==> (#[trigger] names[i]).len() > 0,
    ensures
        crate::text::join_with(names, "/"@).len() > 0,
{
    assert(names[names.len() - 1].len() > 0);
    assert(names.last() == names[names.len() - 1]);
}

/// The components of a path: its root, if it has one, and the segments that count (empty ones do
/// not, nor does `.` but for a leading one).
pub open spec fn components(path: Seq<char>) -> Seq<Seq<char>> {
    let rooted = path.len() > 0 && path[0] == '/';
    (if rooted {
        seq!["/"@]
    } else {
        seq![]
    }) + counting(crate::text::split_on(path, '/'))
}

/// The segments that count.
pub open spec fn counting(segments: Seq<Seq<char>>) -> Seq<Seq<char>>
    decreases segments.len(),
{
    if segments.len() == 0 {
        Seq::empty()
    } else {
        let before = counting(segments.drop_last());
        let s = segments.last();
        if s.len() == 0 || (s == "."@ && segments.len() > 1) {
            before
        } else {
            before.push(s)
        }
    }
}

/// Whether `path` is `base` or lies under it.
pub open spec fn lies_under(path: Seq<char>, base: Seq<char>) -> bool {
    components(base).is_prefix_of(components(path))
}

/// The components of `path`.
fn components_of<'a>(path: &'a str) -> (r: Vec<&'a str>)
    ensures
        crate::text::slice_texts(r@) == components(path@),
{
    let mut out: Vec<&'a str> = Vec::new();
    if char_count(path) > 0 && to_chars(path)[0] == '/' {
        out.push("/");
    }
    let ghost root = crate::text::slice_texts(out@);
    assert(root =~= if path@.len() > 0 && path@[0] == '/' {
        seq!["/"@]
    } else {
        seq![]
    });
    let parts = split(path, '/');
    let ghost all = crate::text::slice_texts(parts@);
    let mut i: usize = 0;
    assert(all.take(0) =~= Seq::empty());
    assert(root + counting(all.take(0)) =~= root);
    while i < parts.len()
        invariant
            i <= parts@.len(),
            all == crate::text::slice_texts(parts@),
            crate::text::slice_texts(out@) == root + counting(all.take(i as int)),
        decreases parts@.len() - i,
    {
        let part = parts[i];
        assert(all.take(i as int + 1).drop_last() =~= all.take(i as int));
        assert(all.take(i as int + 1).last() == part@);
        if !(part.is_empty() || (same(part, ".") && i > 0)) {
            let ghost was = crate::text::slice_texts(out@);
            let ghost before = counting(all.take(i as int));
            out.push(part);
            assert(crate::text::slice_texts(out@) =~= was.push(part@));
            assert(root + before.push(part@) =~= (root + before).push(part@));
        }
        i += 1;
    }
    assert(all.take(i as int) =~= all);
    out
}

/// Whether `path` is `base` or lies under it.
pub fn path_starts_with(path: &str, base: &str) -> (r: bool)
    ensures
        r == lies_under(path@, base@),
{
    let p = components_of(path);
    let b = components_of(base);
    let ghost pt = crate::text::slice_texts(p@);
    let ghost bt = crate::text::slice_texts(b@);
    if b.len() > p.len() {
        return false;
    }
    let mut i: usize = 0;
    while i < b.len()
        invariant
            i <= b@.len() <= p@.len(),
            pt == crate::text::slice_texts(p@),
            bt == crate::text::slice_texts(b@),
            pt == components(path@),
            bt == components(base@),
            forall|j: int| 0 <= j < i ==> pt[j] == bt[j],
        decreases b@.len() - i,
    {
        if !same(p[i], b[i]) {
            assert(pt.subrange(0, bt.len() as int)[i as int] == pt[i as int]);
            return false;
        }
        i += 1;
    }
    assert(bt =~= pt.subrange(0, bt.len() as int));
    true
}

/// What remains of `path` below `base`, with its slash; all of it if it is not below.
pub open spec fn below(path: Seq<char>, base: Seq<char>) -> Seq<char> {
    let stem = if base.len() > 0 && base.last() == '/' {
        base.drop_last()
    } else {
        base
    };
    if (stem + "/"@).is_prefix_of(path) {
        path.skip(stem.len() as int)
    } else {
        path
    }
}

/// The path by which a local file is known: relative to `base`, with a leading slash.
pub fn relative_path(path: &str, base: &str) -> (r: String)
    ensures
        r@ == below(path@, base@),
{
    let bn: usize = char_count(base);
    let stem = if bn > 0 && to_chars(base)[bn - 1] == '/' {
        slice(base, 0, bn - 1)
    } else {
        base
    };
    proof {
        if base@.len() > 0 && base@.last() == '/' {
            assert(stem@ =~= base@.drop_last());
        }
    }
    let mut prefix = stem.to_owned();
    prefix.push_str("/");
    if crate::text::starts_with(path, prefix.as_str()) {
        proof {
            reveal_strlit("/");
        }
        let rest = slice(path, char_count(stem), char_count(path));
        assert(rest@ =~= path@.skip(stem@.len() as int));
        rest.to_owned()
    } else {
        path.to_owned()
    }
}

/// What stands before the last slash of a path; nothing if it has none.
pub open spec fn parent_of(path: Seq<char>) -> Seq<char> {
    match crate::text::last_index(path, '/') {
        Some(i) => path.take(i as int),
        None => Seq::empty(),
    }
}

/// The path of an entry `name` beside the one at `path`.
pub fn sibling(path: &str, name: &str) -> (r: String)
    ensures
        r@ == parent_of(path@) + "/"@ + name@,
{
    let mut out = match crate::text::rfind(path, '/') {
        Some(i) => slice(path, 0, i).to_owned(),
        None => String::new(),
    };
    assert(out@ =~= parent_of(path@));
    out.push_str("/");
    out.push_str(name);
    out
}

/// A name is safe exactly where it is one segment, not empty, not `.` or `..`, without a NUL or a
/// backslash, and does not begin like a drive.
pub proof fn law_safe_names(name: Seq<char>)
    ensures
        safe_name(name) <==> {
            &&& name.len() > 0
            &&& !name.contains('/')
            &&& !name.contains('\0')
            &&& !name.contains('\\')
            &&& name != "."@
            &&& name != ".."@
            &&& !(name.len() >= 2 && name[1] == ':' && ('a' <= name[0] <= 'z' || 'A' <= name[0]
                <= 'Z'))
        },
{
    if !name.contains('/') {
        crate::text::lemma_split_whole(name, '/');
        let parts = crate::text::split_on(name, '/');
        assert(parts[0] == name);
        if name.len() > 0 {
            assert(name.contains(name[0]));
        }
        if exists|i: int| 0 <= i < parts.len() && bad_segment(#[trigger] parts[i]) {
            let i = choose|i: int| 0 <= i < parts.len() && bad_segment(#[trigger] parts[i]);
            assert(i == 0);
        }
        if bad_segment(name) {
            assert(bad_segment(parts[0]));
        }
    }
}

/// A path is safe exactly where every name in it is, and it starts with one.
pub proof fn law_safe_paths(path: Seq<char>)
    ensures
        path_fault(path) is None <==> {
            let parts = crate::text::split_on(path, '/');
            &&& !path.contains('\0')
            &&& !path.contains('\\')
            &&& forall|i: int|
                0 <= i < parts.len() ==> (#[trigger] parts[i]).len() > 0 && parts[i] != "."@
                    && parts[i] != ".."@
            &&& !(parts[0].len() >= 2 && parts[0][1] == ':' && ('a' <= parts[0][0] <= 'z' || 'A'
                <= parts[0][0] <= 'Z'))
        },
{
    let parts = crate::text::split_on(path, '/');
    crate::text::lemma_split_nonempty(path, '/');
    if path.len() == 0 {
        assert(parts[0].len() == 0);
    } else if path[0] == '/' {
        lemma_first_piece_empty(path);
        assert(parts[0].len() == 0);
    }
    if exists|i: int| 0 <= i < parts.len() && bad_segment(#[trigger] parts[i]) {
        let i = choose|i: int| 0 <= i < parts.len() && bad_segment(#[trigger] parts[i]);
        assert(parts[i].len() == 0 || parts[i] == "."@ || parts[i] == ".."@);
    } else {
        assert forall|i: int| 0 <= i < parts.len() implies (#[trigger] parts[i]).len() > 0
            && parts[i] != "."@ && parts[i] != ".."@ by {
            assert(!bad_segment(parts[i]));
        }
    }
}

proof fn lemma_first_piece_empty(path: Seq<char>)
    requires
        path.len() > 0,
        path[0] == '/',
    ensures
        crate::text::split_on(path, '/')[0].len() == 0,
    decreases path.len(),
{
    if path.len() == 1 {
        assert(path.drop_last() =~= Seq::empty());
    } else {
        lemma_first_piece_empty(path.drop_last());
        crate::text::lemma_split_nonempty(path.drop_last(), '/');
        lemma_two_pieces(path.drop_last());
    }
}

proof fn lemma_two_pieces(path: Seq<char>)
    requires
        path.len() > 0,
        path[0] == '/',
    ensures
        crate::text::split_on(path, '/').len() >= 2,
    decreases path.len(),
{
    if path.len() == 1 {
        assert(path.drop_last() =~= Seq::empty());
    } else {
        lemma_two_pieces(path.drop_last());
    }
}

/// What is below a folder in name only is not below it: a path lies under its own folder, and under
/// another of the same parent only if that has the same name.
pub proof fn law_a_path_lies_under_its_folder(dir: Seq<char>, name: Seq<char>, other: Seq<char>)
    requires
        dir.len() > 0,
        name.len() > 0,
        !name.contains('/'),
        name != "."@,
        other.len() > 0,
        !other.contains('/'),
        other != "."@,
    ensures
        lies_under(dir + seq!['/'] + name, dir),
        !lies_under(dir, dir + seq!['/'] + name),
        lies_under(dir + seq!['/'] + name, dir + seq!['/'] + other) <==> name == other,
        lies_under(dir, dir),
{
    lemma_components_below(dir, name);
    lemma_components_below(dir, other);
    let c = components(dir);
    assert(c =~= c.push(name).take(c.len() as int));
    assert(c =~= c.take(c.len() as int));
    if lies_under(dir + seq!['/'] + name, dir + seq!['/'] + other) {
        assert(c.push(other)[c.len() as int] == c.push(name)[c.len() as int]);
    }
    if name == other {
        assert(c.push(other) =~= c.push(name).take(c.len() as int + 1));
    }
}

proof fn lemma_components_below(dir: Seq<char>, name: Seq<char>)
    requires
        dir.len() > 0,
        name.len() > 0,
        !name.contains('/'),
        name != "."@,
    ensures
        components(dir + seq!['/'] + name) == components(dir).push(name),
{
    let path = dir + seq!['/'] + name;
    crate::text::lemma_split_last(dir, name, '/');
    crate::text::lemma_split_nonempty(dir, '/');
    let segments = crate::text::split_on(dir, '/');
    assert(segments.push(name).drop_last() =~= segments);
    assert(path[0] == dir[0]);
    assert(components(path) =~= components(dir).push(name));
}

/// Lying under one another carries over.
pub proof fn law_lying_under_carries_over(a: Seq<char>, b: Seq<char>, c: Seq<char>)
    requires
        lies_under(a, b),
        lies_under(b, c),
    ensures
        lies_under(a, c),
{
    let n = components(c).len() as int;
    assert(components(c) =~= components(a).take(n)) by {
        assert forall|i: int| 0 <= i < n implies components(c)[i] == components(a)[i] by {
            assert(components(c)[i] == components(b)[i]);
            assert(components(b)[i] == components(a)[i]);
        }
    }
}

/// A path falls into its folder and its name, and what is below a folder is what follows it.
pub proof fn law_a_path_falls_into_folder_and_name(dir: Seq<char>, name: Seq<char>)
    requires
        !name.contains('/'),
    ensures
        parent_of(dir + seq!['/'] + name) == dir,
        parent_of(name).len() == 0,
        dir.len() > 0 && dir.last() != '/' ==> {
            &&& below(dir + seq!['/'] + name, dir) == seq!['/'] + name
            &&& below(dir + seq!['/'] + name, dir + seq!['/']) == seq!['/'] + name
            &&& entry_of(dir, name) == dir + seq!['/'] + name
            &&& entry_of(dir + seq!['/'], name) == dir + seq!['/'] + name
        },
        entry_of(Seq::empty(), name) == name,
{
    reveal_strlit("/");
    assert("/"@ =~= seq!['/']);
    let path = dir + seq!['/'] + name;
    crate::text::law_last_index(path, '/');
    crate::text::law_last_index(name, '/');
    let n = dir.len() as int;
    assert(path[n] == '/');
    assert(path.contains('/'));
    let i = crate::text::last_index(path, '/')->0;
    assert(i == n) by {
        if i > n {
            assert(path[i as int] == name[i - n - 1]);
            assert(name.contains(name[i - n - 1]));
        }
    }
    assert(path.take(n) =~= dir);
    if dir.len() > 0 && dir.last() != '/' {
        assert((dir + seq!['/']).drop_last() =~= dir);
        assert(dir + seq!['/'] =~= path.take(n + 1));
        assert(path.skip(n) =~= seq!['/'] + name);
    }
}

} // verus!
