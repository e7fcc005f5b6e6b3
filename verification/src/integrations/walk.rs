//! Walking a provider's folders: down from a folder, which lists everything below it, and up from
//! a changed item, which finds its path. Providers hold graphs rather than trees (several parents,
//! names that occur twice, cycles), so both ways are defensive.

use vstd::prelude::*;
use vstd::string::*;

use crate::integrations::paths::{is_safe_name, MAX_LIST_DEPTH};
use crate::table::Table;
use crate::text::same;

verus! {

/// Whether `s` is in `v`.
pub fn member(v: &Vec<String>, s: &str) -> (r: bool)
    ensures
        r == crate::text::texts(v@).contains(s@),
{
    let mut i: usize = 0;
    while i < v.len()
        invariant
            i <= v@.len(),
            forall|j: int| 0 <= j < i ==> crate::text::texts(v@)[j] != s@,
        decreases v@.len() - i,
    {
        if same(v[i].as_str(), s) {
            assert(crate::text::texts(v@)[i as int] == s@);
            return true;
        }
        i += 1;
    }
    false
}

/// `s` with `x`, which it has at most once.
pub open spec fn with(s: Seq<Seq<char>>, x: Seq<char>) -> Seq<Seq<char>> {
    if s.contains(x) {
        s
    } else {
        s.push(x)
    }
}

/// Add `s` to `v` unless it is there; whether it was not.
pub fn insert(v: &mut Vec<String>, s: &str) -> (r: bool)
    ensures
        r == !crate::text::texts(old(v)@).contains(s@),
        crate::text::texts(final(v)@) == with(crate::text::texts(old(v)@), s@),
{
    if member(v, s) {
        false
    } else {
        let ghost was = crate::text::texts(v@);
        v.push(s.to_owned());
        assert(crate::text::texts(v@) =~= was.push(s@));
        true
    }
}

/// A folder that is to be listed: its id, the path of its entries' parent, and how deep it is.
#[derive(Debug)]
pub struct Place {
    pub id: String,
    pub prefix: String,
    pub depth: usize,
}

/// [`Place`] with its texts as characters.
pub struct PlaceView {
    pub id: Seq<char>,
    pub prefix: Seq<char>,
    pub depth: nat,
}

impl View for Place {
    type V = PlaceView;

    open spec fn view(&self) -> PlaceView {
        PlaceView { id: self.id@, prefix: self.prefix@, depth: self.depth as nat }
    }
}

/// A walk down a provider's folders.
#[derive(Debug)]
pub struct Walk {
    /// The ids of folders, or of all items where the provider does not tell them apart.
    pub folders: Vec<String>,
    /// The ids of files.
    pub files: Vec<String>,
    pub paths: Vec<String>,
    pub queue: Vec<Place>,
    /// Whether files have ids of their own, apart from the folders'.
    pub apart: bool,
}

/// [`Walk`] with its texts as characters.
#[verifier::ext_equal]
pub struct WalkView {
    pub folders: Seq<Seq<char>>,
    pub files: Seq<Seq<char>>,
    pub paths: Seq<Seq<char>>,
    pub queue: Seq<PlaceView>,
    pub apart: bool,
}

/// Places with their texts as characters.
pub open spec fn places(v: Seq<Place>) -> Seq<PlaceView> {
    v.map_values(|p: Place| p@)
}

impl View for Walk {
    type V = WalkView;

    open spec fn view(&self) -> WalkView {
        WalkView {
            folders: crate::text::texts(self.folders@),
            files: crate::text::texts(self.files@),
            paths: crate::text::texts(self.paths@),
            queue: places(self.queue@),
            apart: self.apart,
        }
    }
}

/// The path of an entry.
pub open spec fn under(prefix: Seq<char>, name: Seq<char>) -> Seq<char> {
    prefix + "/"@ + name
}

/// An item that a listing of a folder shows.
pub struct Shown {
    pub place: PlaceView,
    pub id: Seq<char>,
    pub name: Seq<char>,
    pub is_folder: bool,
}

impl WalkView {
    /// Whether an item was met before.
    pub open spec fn met(self, s: Shown) -> bool {
        if self.apart && !s.is_folder {
            self.files.contains(s.id)
        } else {
            self.folders.contains(s.id)
        }
    }

    /// Whether an item is listed: its name is a safe path segment, it was not met before, and
    /// neither was its path.
    pub open spec fn lists(self, s: Shown) -> bool {
        crate::integrations::paths::safe_name(s.name) && !self.met(s) && !self.paths.contains(
            under(s.place.prefix, s.name),
        )
    }

    /// The walk after an item was shown: it is remembered if its name is safe, and a folder that
    /// is listed is walked in turn unless it is too deep.
    pub open spec fn after(self, s: Shown) -> WalkView {
        if !crate::integrations::paths::safe_name(s.name) {
            self
        } else {
            WalkView {
                folders: if self.apart && !s.is_folder {
                    self.folders
                } else {
                    with(self.folders, s.id)
                },
                files: if self.apart && !s.is_folder {
                    with(self.files, s.id)
                } else {
                    self.files
                },
                paths: if self.met(s) {
                    self.paths
                } else {
                    with(self.paths, under(s.place.prefix, s.name))
                },
                queue: if self.lists(s) && s.is_folder && s.place.depth + 1 < MAX_LIST_DEPTH {
                    self.queue.push(
                        PlaceView {
                            id: s.id,
                            prefix: under(s.place.prefix, s.name),
                            depth: s.place.depth + 1,
                        },
                    )
                } else {
                    self.queue
                },
                apart: self.apart,
            }
        }
    }
}

impl Walk {
    /// A walk that starts at the folder `id`, whose entries have no path before their names.
    pub fn new(id: &str, apart: bool, remember: bool) -> (r: Self)
        ensures
            r@ == (WalkView {
                folders: if remember {
                    seq![id@]
                } else {
                    Seq::empty()
                },
                files: Seq::empty(),
                paths: Seq::empty(),
                queue: seq![PlaceView { id: id@, prefix: Seq::empty(), depth: 0 }],
                apart,
            }),
    {
        let mut folders: Vec<String> = Vec::new();
        if remember {
            folders.push(id.to_owned());
        }
        let mut queue: Vec<Place> = Vec::new();
        queue.push(Place { id: id.to_owned(), prefix: String::new(), depth: 0 });
        let r = Walk { folders, files: Vec::new(), paths: Vec::new(), queue, apart };
        assert(queue@[0]@.prefix =~= Seq::empty());
        assert(r@ =~= WalkView {
            folders: if remember {
                seq![id@]
            } else {
                Seq::empty()
            },
            files: Seq::empty(),
            paths: Seq::empty(),
            queue: seq![PlaceView { id: id@, prefix: Seq::empty(), depth: 0 }],
            apart,
        });
        r
    }

    /// The folder to list next: the one that waits longest.
    pub fn next(&mut self) -> (r: Option<Place>)
        ensures
            match r {
                Some(p) => old(self)@.queue.len() > 0 && p@ == old(self)@.queue[0] && final(self)@
                    == (WalkView { queue: old(self)@.queue.skip(1), ..old(self)@ }),
                None => old(self)@.queue.len() == 0 && final(self)@ == old(self)@,
            },
    {
        if self.queue.len() == 0 {
            return None;
        }
        let ghost was = self@;
        let p = self.queue.remove(0);
        assert(self@ =~= WalkView { queue: was.queue.skip(1), ..was });
        Some(p)
    }

    /// Take up an item that the listing of `place` shows; its path, if it is listed.
    pub fn offer(&mut self, place: &Place, id: &str, name: &str, is_folder: bool) -> (r: Option<
        String,
    >)
        ensures
            ({
                let s = Shown { place: place@, id: id@, name: name@, is_folder };
                &&& final(self)@ == old(self)@.after(s)
                &&& match r {
                    Some(p) => old(self)@.lists(s) && p@ == under(place.prefix@, name@),
                    None => !old(self)@.lists(s),
                }
            }),
    {
        let ghost s = Shown { place: place@, id: id@, name: name@, is_folder };
        let ghost was = self@;
        if !is_safe_name(name) {
            return None;
        }
        let fresh = if self.apart && !is_folder {
            insert(&mut self.files, id)
        } else {
            insert(&mut self.folders, id)
        };
        if !fresh {
            assert(self@ =~= was.after(s));
            return None;
        }
        let mut path = place.prefix.clone();
        path.push_str("/");
        path.push_str(name);
        if !insert(&mut self.paths, path.as_str()) {
            assert(self@ =~= was.after(s));
            return None;
        }
        if is_folder && place.depth < MAX_LIST_DEPTH - 1 {
            let ghost queue = places(self.queue@);
            self.queue.push(
                Place { id: id.to_owned(), prefix: path.clone(), depth: place.depth + 1 },
            );
            assert(places(self.queue@) =~= queue.push(
                PlaceView {
                    id: id@,
                    prefix: under(place.prefix@, name@),
                    depth: place.depth as nat + 1,
                },
            ));
        }
        assert(self@ =~= was.after(s));
        Some(path)
    }
}

/// The walk after several items were shown.
pub open spec fn after_all(w: WalkView, shown: Seq<Shown>) -> WalkView
    decreases shown.len(),
{
    if shown.len() == 0 {
        w
    } else {
        after_all(w, shown.drop_last()).after(shown.last())
    }
}

/// The items that are listed, of several that were shown.
pub open spec fn listed(w: WalkView, shown: Seq<Shown>) -> Seq<Shown>
    decreases shown.len(),
{
    if shown.len() == 0 {
        Seq::empty()
    } else {
        let before = listed(w, shown.drop_last());
        if after_all(w, shown.drop_last()).lists(shown.last()) {
            before.push(shown.last())
        } else {
            before
        }
    }
}

/// Whatever folders show, in whatever order: no path is listed twice, no folder twice, and no file
/// twice.
pub proof fn law_nothing_is_listed_twice(w: WalkView, shown: Seq<Shown>)
    ensures
        ({
            let l = listed(w, shown);
            forall|i: int, j: int|
                0 <= i < j < l.len() ==> {
                    &&& under((#[trigger] l[i]).place.prefix, l[i].name) != under(
                        (#[trigger] l[j]).place.prefix,
                        l[j].name,
                    )
                    &&& l[i].is_folder == l[j].is_folder ==> l[i].id != l[j].id
                }
        }),
        ({
            let l = listed(w, shown);
            let a = after_all(w, shown);
            &&& a.apart == w.apart
            &&& forall|i: int|
                0 <= i < l.len() ==> a.met(#[trigger] l[i]) && a.paths.contains(
                    under(l[i].place.prefix, l[i].name),
                )
        }),
    decreases shown.len(),
{
    if shown.len() > 0 {
        let rest = shown.drop_last();
        let s = shown.last();
        law_nothing_is_listed_twice(w, rest);
        let b = after_all(w, rest);
        let a = b.after(s);
        let before = listed(w, rest);
        lemma_remembers(b, s);
        let l = listed(w, shown);
        assert forall|i: int| 0 <= i < l.len() implies a.met(#[trigger] l[i]) && a.paths.contains(
            under(l[i].place.prefix, l[i].name),
        ) by {
            if i < before.len() {
                assert(l[i] == before[i]);
            }
        }
        assert forall|i: int, j: int| 0 <= i < j < l.len() implies {
            &&& under((#[trigger] l[i]).place.prefix, l[i].name) != under(
                (#[trigger] l[j]).place.prefix,
                l[j].name,
            )
            &&& l[i].is_folder == l[j].is_folder ==> l[i].id != l[j].id
        } by {
            assert(l[i] == before[i]);
            if j < before.len() {
                assert(l[j] == before[j]);
            } else {
                assert(l[j] == s);
                assert(b.met(before[i]));
            }
        }
    }
}

/// What a walk remembers it goes on remembering, and it remembers what it lists.
proof fn lemma_remembers(b: WalkView, s: Shown)
    ensures
        forall|t: Shown| #[trigger] b.met(t) ==> b.after(s).met(t),
        forall|p: Seq<char>| b.paths.contains(p) ==> #[trigger] b.after(s).paths.contains(p),
        b.lists(s) ==> b.after(s).met(s) && b.after(s).paths.contains(under(s.place.prefix, s.name)),
        b.after(s).apart == b.apart,
{
    lemma_with(b.folders, s.id);
    lemma_with(b.files, s.id);
    lemma_with(b.paths, under(s.place.prefix, s.name));
}

proof fn lemma_with(v: Seq<Seq<char>>, x: Seq<char>)
    ensures
        with(v, x).contains(x),
        forall|y: Seq<char>| v.contains(y) ==> #[trigger] with(v, x).contains(y),
{
    if !v.contains(x) {
        assert(v.push(x)[v.len() as int] == x);
        assert forall|y: Seq<char>| v.contains(y) implies #[trigger] with(v, x).contains(y) by {
            let i = choose|i: int| 0 <= i < v.len() && v[i] == y;
            assert(v.push(x)[i] == y);
        }
    }
}

/// A path as walks give them: none, or one that is safe once its leading slash is taken off.
pub open spec fn clean(path: Seq<char>) -> bool {
    path.len() == 0 || (path[0] == '/' && crate::integrations::paths::path_fault(path.skip(1))
        is None)
}

/// Splitting what `a` and `b` are with a slash between is splitting `a`, and `b` besides, where
/// `b` has no slash.
proof fn lemma_split_appended(a: Seq<char>, b: Seq<char>)
    requires
        !b.contains('/'),
    ensures
        crate::text::split_on(a + "/"@ + b, '/') == crate::text::split_on(a, '/').push(b),
    decreases b.len(),
{
    reveal_strlit("/");
    let whole = a + "/"@ + b;
    if b.len() == 0 {
        assert(whole.drop_last() =~= a);
        assert(b =~= Seq::empty());
    } else {
        let c = b.drop_last();
        assert(b.contains(b[b.len() - 1]));
        assert forall|x: char| c.contains(x) implies b.contains(x) by {
            let i = choose|i: int| 0 <= i < c.len() && c[i] == x;
            assert(b[i] == x);
        }
        lemma_split_appended(a, c);
        assert(whole.drop_last() =~= a + "/"@ + c);
        let before = crate::text::split_on(a, '/').push(c);
        assert(before.drop_last() =~= crate::text::split_on(a, '/'));
        assert(c.push(b.last()) =~= b);
    }
}

/// A text without a slash is one piece.
proof fn lemma_split_single(b: Seq<char>)
    requires
        !b.contains('/'),
    ensures
        crate::text::split_on(b, '/') == seq![b],
    decreases b.len(),
{
    if b.len() > 0 {
        let c = b.drop_last();
        assert(b.contains(b[b.len() - 1]));
        assert forall|x: char| c.contains(x) implies b.contains(x) by {
            let i = choose|i: int| 0 <= i < c.len() && c[i] == x;
            assert(b[i] == x);
        }
        lemma_split_single(c);
        assert(c.push(b.last()) =~= b);
        assert(crate::text::split_on(b, '/') =~= seq![b]);
    } else {
        assert(b =~= Seq::empty());
    }
}

/// A safe name below a clean path makes a clean path.
pub proof fn lemma_clean(prefix: Seq<char>, name: Seq<char>)
    requires
        clean(prefix),
        crate::integrations::paths::safe_name(name),
    ensures
        clean(under(prefix, name)),
{
    reveal_strlit("/");
    let path = under(prefix, name);
    lemma_split_single(name);
    assert(crate::text::split_on(name, '/')[0] == name);
    if prefix.len() == 0 {
        assert(path.skip(1) =~= name);
    } else {
        let p = prefix.skip(1);
        let q = path.skip(1);
        assert(q =~= p + "/"@ + name);
        lemma_split_appended(p, name);
        let ps = crate::text::split_on(p, '/');
        let qs = crate::text::split_on(q, '/');
        crate::text::lemma_split_nonempty(p, '/');
        assert(qs[0] == ps[0]);
        assert(q[0] == p[0]);
        assert forall|c: char| c != '/' && q.contains(c) implies p.contains(c) || name.contains(
            c,
        ) by {
            let i = choose|i: int| 0 <= i < q.len() && q[i] == c;
            if i < p.len() {
                assert(p[i] == c);
            } else if i > p.len() {
                assert(name[i - p.len() - 1] == c);
            }
        }
        assert forall|i: int| 0 <= i < qs.len() implies !crate::integrations::paths::bad_segment(
            #[trigger] qs[i],
        ) by {
            if i < ps.len() {
                assert(qs[i] == ps[i]);
            } else {
                assert(qs[i] == name);
            }
        }
    }
}

/// Whatever the provider's names are, every path that a walk lists, and every folder that it goes
/// on to, is safe: no path leads out of the directory that it is taken relative to.
pub proof fn law_listed_paths_are_safe(w: WalkView, s: Shown)
    requires
        clean(s.place.prefix),
        forall|i: int| 0 <= i < w.queue.len() ==> clean((#[trigger] w.queue[i]).prefix),
        w.lists(s),
    ensures
        clean(under(s.place.prefix, s.name)),
        under(s.place.prefix, s.name).len() > 0,
        forall|i: int|
            0 <= i < w.after(s).queue.len() ==> clean((#[trigger] w.after(s).queue[i]).prefix),
{
    lemma_clean(s.place.prefix, s.name);
    reveal_strlit("/");
}

/// Folders deeper than the limit are not walked: every folder that waits is above it.
pub proof fn law_depth_is_capped(w: WalkView, s: Shown)
    requires
        forall|i: int| 0 <= i < w.queue.len() ==> (#[trigger] w.queue[i]).depth < MAX_LIST_DEPTH,
    ensures
        forall|i: int|
            0 <= i < w.after(s).queue.len() ==> (#[trigger] w.after(s).queue[i]).depth
                < MAX_LIST_DEPTH,
{
}

/// What finding a path needs to know about a folder.
#[derive(Debug)]
pub struct FolderInfo {
    pub name: String,
    pub parents: Vec<String>,
    pub is_drive_root: bool,
}

/// [`FolderInfo`] with its texts as characters.
pub struct FolderView {
    pub name: Seq<char>,
    pub parents: Seq<Seq<char>>,
    pub is_drive_root: bool,
}

impl View for FolderInfo {
    type V = FolderView;

    open spec fn view(&self) -> FolderView {
        FolderView {
            name: self.name@,
            parents: crate::text::texts(self.parents@),
            is_drive_root: self.is_drive_root,
        }
    }
}

/// What a search for a path came to.
pub enum FoundView {
    /// The path, relative to the sync root.
    At(Seq<char>),
    /// No chain of parents reaches the sync root.
    Nowhere,
    /// The folder of this id has to be looked up first.
    Need(Seq<char>),
}

/// What a search for a path came to.
#[derive(Debug)]
pub enum Found {
    /// The path, relative to the sync root.
    At(String),
    /// No chain of parents reaches the sync root.
    Nowhere,
    /// The folder of this id has to be looked up first.
    Need(String),
}

impl View for Found {
    type V = FoundView;

    open spec fn view(&self) -> FoundView {
        match self {
            Found::At(p) => FoundView::At(p@),
            Found::Nowhere => FoundView::Nowhere,
            Found::Need(id) => FoundView::Need(id@),
        }
    }
}

/// What was found of folders so far: their paths, or that they have none.
pub type Paths = Map<Seq<char>, Option<Seq<char>>>;

/// Where folders are, and which of them is the sync root.
pub struct SearchView {
    /// The folders that were looked up, with what there is of them.
    pub known: Map<Seq<char>, Option<FolderView>>,
    /// The ids of the sync root.
    pub roots: Seq<Seq<char>>,
    /// Whether the drive's root folder is the sync root.
    pub drive: bool,
}

impl SearchView {
    /// The path of the folder `id`, found `depth` steps up from an item, when `paths` was found
    /// before; and what is found now. The folder has no path while it is being looked for, which
    /// breaks cycles.
    pub open spec fn folder(self, id: Seq<char>, paths: Paths, depth: nat) -> (FoundView, Paths)
        decreases MAX_LIST_DEPTH - depth, 1int, 0int,
    {
        if self.roots.contains(id) {
            (FoundView::At(Seq::empty()), paths)
        } else if paths.contains_key(id) {
            match paths[id] {
                Some(p) => (FoundView::At(p), paths),
                None => (FoundView::Nowhere, paths),
            }
        } else if depth >= MAX_LIST_DEPTH {
            (FoundView::Nowhere, paths)
        } else if !self.known.contains_key(id) {
            (FoundView::Need(id), paths)
        } else {
            let (found, after) = match self.known[id] {
                None => (FoundView::Nowhere, paths.insert(id, None)),
                Some(f) => if f.is_drive_root {
                    (
                        if self.drive {
                            FoundView::At(Seq::empty())
                        } else {
                            FoundView::Nowhere
                        },
                        paths.insert(id, None),
                    )
                } else if crate::integrations::paths::safe_name(f.name) {
                    let (above, after) = self.above(
                        f.parents,
                        paths.insert(id, None),
                        depth + 1,
                    );
                    (
                        match above {
                            FoundView::At(p) => FoundView::At(under(p, f.name)),
                            other => other,
                        },
                        after,
                    )
                } else {
                    (FoundView::Nowhere, paths.insert(id, None))
                },
            };
            match found {
                FoundView::At(p) => (found, after.insert(id, Some(p))),
                FoundView::Nowhere => (found, after.insert(id, None)),
                FoundView::Need(_) => (found, after),
            }
        }
    }

    /// The path of the first of `parents` that has one.
    pub open spec fn above(
        self,
        parents: Seq<Seq<char>>,
        paths: Paths,
        depth: nat,
    ) -> (FoundView, Paths)
        decreases
                MAX_LIST_DEPTH - depth,
                2int,
                parents.len(),
    {
        if parents.len() == 0 {
            (FoundView::Nowhere, paths)
        } else {
            let (found, after) = self.folder(parents[0], paths, depth);
            match found {
                FoundView::Nowhere => self.above(parents.skip(1), after, depth),
                _ => (found, after),
            }
        }
    }
}

/// What was found of folders, as the entries tell it.
pub open spec fn paths_of(log: Seq<(String, Option<String>)>) -> Paths
    decreases log.len(),
{
    if log.len() == 0 {
        Map::empty()
    } else {
        paths_of(log.drop_last()).insert(log.last().0@, crate::text::text_of(log.last().1))
    }
}

/// What is known of folders, with its texts as characters.
pub open spec fn known_of(t: Map<Seq<char>, Option<FolderInfo>>) -> Map<
    Seq<char>,
    Option<FolderView>,
> {
    t.map_values(
        |f: Option<FolderInfo>|
            match f {
                Some(f) => Some(f@),
                None => None,
            },
    )
}

/// A search for the paths of changed items.
#[derive(Debug)]
pub struct Search {
    pub known: Table<Option<FolderInfo>>,
    pub roots: Vec<String>,
    pub drive: bool,
    /// What was found of folders; the last entry of an id counts.
    pub log: Vec<(String, Option<String>)>,
}

impl View for Search {
    type V = SearchView;

    open spec fn view(&self) -> SearchView {
        SearchView {
            known: known_of(self.known@),
            roots: crate::text::texts(self.roots@),
            drive: self.drive,
        }
    }
}

/// The last entry of `id`.
fn last_entry(log: &Vec<(String, Option<String>)>, id: &str) -> (r: Option<Option<String>>)
    ensures
        match r {
            Some(p) => paths_of(log@).contains_key(id@) && paths_of(log@)[id@]
                == crate::text::text_of(p),
            None => !paths_of(log@).contains_key(id@),
        },
{
    let mut i: usize = log.len();
    assert(log@.take(i as int) =~= log@);
    while i > 0
        invariant
            i <= log@.len(),
            paths_of(log@).contains_key(id@) == paths_of(log@.take(i as int)).contains_key(id@),
            paths_of(log@).contains_key(id@) ==> paths_of(log@)[id@] == paths_of(
                log@.take(i as int),
            )[id@],
        decreases i,
    {
        i -= 1;
        assert(log@.take(i as int + 1).drop_last() =~= log@.take(i as int));
        assert(log@.take(i as int + 1).last() == log@[i as int]);
        if same(log[i].0.as_str(), id) {
            return Some(log[i].1.clone());
        }
    }
    None
}

impl Search {
    pub open spec fn wf(&self) -> bool {
        self.known.wf()
    }

    /// What was found so far.
    pub open spec fn paths(&self) -> Paths {
        paths_of(self.log@)
    }

    /// A search for paths below the folders `roots`, or below the drive's root.
    pub fn new(roots: Vec<String>, drive: bool) -> (r: Self)
        ensures
            r.wf(),
            r@ == (SearchView {
                known: Map::empty(),
                roots: crate::text::texts(roots@),
                drive,
            }),
            r.paths() == Paths::empty(),
    {
        let r = Search { known: Table::new(), roots, drive, log: Vec::new() };
        assert(r@.known =~= Map::empty());
        r
    }

    /// The folder `id` was looked up: what there is of it.
    pub fn learn(&mut self, id: String, info: Option<FolderInfo>)
        requires
            old(self).wf(),
        ensures
            final(self).wf(),
            final(self)@ == (SearchView {
                known: old(self)@.known.insert(
                    id@,
                    match info {
                        Some(f) => Some(f@),
                        None => None,
                    },
                ),
                ..old(self)@
            }),
            final(self).paths() == old(self).paths(),
    {
        let ghost was = self@;
        let ghost key = id@;
        self.known.insert(id, info);
        assert(self@.known =~= was.known.insert(
            key,
            match info {
                Some(f) => Some(f@),
                None => None,
            },
        ));
    }

    fn note(&mut self, id: &str, path: Option<String>)
        requires
            old(self).wf(),
        ensures
            final(self).wf(),
            final(self)@ == old(self)@,
            final(self).known == old(self).known,
            final(self).roots == old(self).roots,
            final(self).drive == old(self).drive,
            final(self).paths() == old(self).paths().insert(id@, crate::text::text_of(path)),
            final(self).log@.len() == old(self).log@.len() + 1,
            final(self).log@.drop_last() == old(self).log@,
    {
        let ghost was = self.log@;
        self.log.push((id.to_owned(), path));
        assert(self.log@.drop_last() =~= was);
    }

    /// The path of the first of `parents` that has one, relative to the sync root. Where a folder
    /// has to be looked up first, nothing has changed.
    pub fn find(&mut self, parents: &Vec<String>) -> (r: Found)
        requires
            old(self).wf(),
        ensures
            final(self).wf(),
            final(self)@ == old(self)@,
            ({
                let (found, after) = old(self)@.above(
                    crate::text::texts(parents@),
                    old(self).paths(),
                    0,
                );
                &&& r@ == found
                &&& final(self).paths() == (if found is Need {
                    old(self).paths()
                } else {
                    after
                })
            }),
    {
        let ghost was = self.log@;
        let n: usize = self.log.len();
        let r = self.above(parents, 0, 0);
        assert(crate::text::texts(parents@).skip(0) =~= crate::text::texts(parents@));
        if let Found::Need(_) = r {
            self.log.truncate(n);
            assert(self.log@ =~= was);
        }
        r
    }

    fn above(&mut self, parents: &Vec<String>, from: usize, depth: usize) -> (r: Found)
        requires
            old(self).wf(),
            from <= parents@.len(),
            depth <= MAX_LIST_DEPTH,
        ensures
            final(self).wf(),
            final(self)@ == old(self)@,
            old(self).log@.is_prefix_of(final(self).log@),
            ({
                let (found, after) = old(self)@.above(
                    crate::text::texts(parents@).skip(from as int),
                    old(self).paths(),
                    depth as nat,
                );
                &&& r@ == found
                &&& found !is Need ==> final(self).paths() == after
            }),
        decreases MAX_LIST_DEPTH - depth, 2int, parents@.len() - from,
    {
        let ghost rest = crate::text::texts(parents@).skip(from as int);
        if from == parents.len() {
            return Found::Nowhere;
        }
        assert(rest[0] == parents@[from as int]@);
        assert(rest.skip(1) =~= crate::text::texts(parents@).skip(from as int + 1));
        match self.folder(parents[from].as_str(), depth) {
            Found::Nowhere => self.above(parents, from + 1, depth),
            found => found,
        }
    }

    fn folder(&mut self, id: &str, depth: usize) -> (r: Found)
        requires
            old(self).wf(),
            depth <= MAX_LIST_DEPTH,
        ensures
            final(self).wf(),
            final(self)@ == old(self)@,
            old(self).log@.is_prefix_of(final(self).log@),
            ({
                let (found, after) = old(self)@.folder(id@, old(self).paths(), depth as nat);
                &&& r@ == found
                &&& found !is Need ==> final(self).paths() == after
            }),
        decreases MAX_LIST_DEPTH - depth, 1int, 0int,
    {
        if member(&self.roots, id) {
            let p = String::new();
            assert(p@ =~= Seq::empty());
            return Found::At(p);
        }
        if let Some(hit) = last_entry(&self.log, id) {
            return match hit {
                Some(p) => Found::At(p),
                None => Found::Nowhere,
            };
        }
        if depth >= MAX_LIST_DEPTH {
            return Found::Nowhere;
        }
        let ghost was = self@;
        let (name, parents, is_drive_root) = match self.known.get(id) {
            None => {
                return Found::Need(id.to_owned());
            },
            Some(None) => {
                self.note(id, None);
                self.note(id, None);
                return Found::Nowhere;
            },
            Some(Some(f)) => (f.name.clone(), copy(&f.parents), f.is_drive_root),
        };
        self.note(id, None);
        let found = if is_drive_root {
            if self.drive {
                let p = String::new();
                assert(p@ =~= Seq::empty());
                Found::At(p)
            } else {
                Found::Nowhere
            }
        } else if is_safe_name(name.as_str()) {
            assert(crate::text::texts(parents@).skip(0) =~= crate::text::texts(parents@));
            match self.above(&parents, 0, depth + 1) {
                Found::At(p) => {
                    let mut path = p;
                    path.push_str("/");
                    path.push_str(name.as_str());
                    Found::At(path)
                },
                found => found,
            }
        } else {
            Found::Nowhere
        };
        match &found {
            Found::At(p) => self.note(id, Some(p.clone())),
            Found::Nowhere => self.note(id, None),
            Found::Need(_) => {},
        }
        found
    }
}

/// The same texts again.
pub fn copy(v: &Vec<String>) -> (r: Vec<String>)
    ensures
        crate::text::texts(r@) == crate::text::texts(v@),
{
    let mut out: Vec<String> = Vec::new();
    let mut i: usize = 0;
    assert(crate::text::texts(out@) =~= crate::text::texts(v@).take(0));
    while i < v.len()
        invariant
            i <= v@.len(),
            crate::text::texts(out@) == crate::text::texts(v@).take(i as int),
        decreases v@.len() - i,
    {
        let ghost was = crate::text::texts(out@);
        out.push(v[i].clone());
        assert(crate::text::texts(out@) =~= was.push(v@[i as int]@));
        assert(crate::text::texts(v@).take(i as int + 1) =~= was.push(v@[i as int]@));
        i += 1;
    }
    assert(crate::text::texts(v@).take(i as int) =~= crate::text::texts(v@));
    out
}

/// Whether every path that was found is clean.
pub open spec fn all_clean(paths: Paths) -> bool {
    forall|id: Seq<char>| #[trigger]
        paths.contains_key(id) ==> match paths[id] {
            Some(p) => clean(p),
            None => true,
        }
}

/// Whatever the provider's names are, every path that a search finds is safe, and stays so for
/// later searches.
pub proof fn law_found_paths_are_safe(
    s: SearchView,
    parents: Seq<Seq<char>>,
    paths: Paths,
    depth: nat,
)
    requires
        all_clean(paths),
    ensures
        s.above(parents, paths, depth).0 matches FoundView::At(p) ==> clean(p),
        all_clean(s.above(parents, paths, depth).1),
    decreases MAX_LIST_DEPTH - depth, 2int, parents.len(),
{
    if parents.len() > 0 {
        lemma_folder_clean(s, parents[0], paths, depth);
        let (found, after) = s.folder(parents[0], paths, depth);
        if found is Nowhere {
            law_found_paths_are_safe(s, parents.skip(1), after, depth);
        }
    }
}

proof fn lemma_folder_clean(s: SearchView, id: Seq<char>, paths: Paths, depth: nat)
    requires
        all_clean(paths),
    ensures
        s.folder(id, paths, depth).0 matches FoundView::At(p) ==> clean(p),
        all_clean(s.folder(id, paths, depth).1),
    decreases MAX_LIST_DEPTH - depth, 1int, 0int,
{
    if !s.roots.contains(id) && !paths.contains_key(id) && depth < MAX_LIST_DEPTH
        && s.known.contains_key(id) {
        assert(all_clean(paths.insert(id, None)));
        if let Some(f) = s.known[id] {
            if !f.is_drive_root && crate::integrations::paths::safe_name(f.name) {
                law_found_paths_are_safe(s, f.parents, paths.insert(id, None), depth + 1);
                let (above, after) = s.above(f.parents, paths.insert(id, None), depth + 1);
                if let FoundView::At(p) = above {
                    lemma_clean(p, f.name);
                    assert(all_clean(after.insert(id, Some(under(p, f.name)))));
                } else if above is Nowhere {
                    assert(all_clean(after.insert(id, None)));
                }
            } else if f.is_drive_root && s.drive {
                assert(all_clean(paths.insert(id, None).insert(id, Some(Seq::empty()))));
            } else {
                assert(all_clean(paths.insert(id, None).insert(id, None)));
            }
        } else {
            assert(all_clean(paths.insert(id, None).insert(id, None)));
        }
    }
}

/// A changed item whose path is wanted.
#[derive(Debug)]
pub struct Item {
    pub name: String,
    pub parents: Vec<String>,
}

/// [`Item`] with its texts as characters.
pub struct ItemView {
    pub name: Seq<char>,
    pub parents: Seq<Seq<char>>,
}

impl View for Item {
    type V = ItemView;

    open spec fn view(&self) -> ItemView {
        ItemView { name: self.name@, parents: crate::text::texts(self.parents@) }
    }
}

/// Items with their texts as characters.
pub open spec fn item_views(v: Seq<Item>) -> Seq<ItemView> {
    v.map_values(|i: Item| i@)
}

/// The paths of items.
pub struct Placed {
    /// One for each item: none where its name is not safe, or no parent of it has a path.
    pub paths: Seq<Option<Seq<char>>>,
    /// What was found of folders.
    pub after: Paths,
    /// The folder that has to be looked up before the next item can be placed.
    pub need: Option<Seq<char>>,
}

impl SearchView {
    /// The paths of `items`, in order, up to the first that a folder has to be looked up for.
    pub open spec fn place(self, items: Seq<ItemView>, paths: Paths) -> Placed
        decreases items.len(),
    {
        if items.len() == 0 {
            Placed { paths: Seq::empty(), after: paths, need: None }
        } else {
            let before = self.place(items.drop_last(), paths);
            let item = items.last();
            if before.need is Some {
                before
            } else if !crate::integrations::paths::safe_name(item.name) {
                Placed { paths: before.paths.push(None), ..before }
            } else {
                let (found, after) = self.above(item.parents, before.after, 0);
                match found {
                    FoundView::At(p) => Placed {
                        paths: before.paths.push(Some(under(p, item.name))),
                        after,
                        need: None,
                    },
                    FoundView::Nowhere => Placed {
                        paths: before.paths.push(None),
                        after,
                        need: None,
                    },
                    FoundView::Need(id) => Placed { need: Some(id), ..before },
                }
            }
        }
    }
}

/// The texts of a list of strings that may be missing.
pub open spec fn option_texts(v: Seq<Option<String>>) -> Seq<Option<Seq<char>>> {
    v.map_values(|s: Option<String>| crate::text::text_of(s))
}

/// Where an item cannot be placed, nothing after it is.
proof fn lemma_place_stops(s: SearchView, items: Seq<ItemView>, paths: Paths, n: int)
    requires
        0 <= n <= items.len(),
        s.place(items.take(n), paths).need is Some,
    ensures
        s.place(items, paths) == s.place(items.take(n), paths),
    decreases items.len() - n,
{
    if n < items.len() {
        assert(items.take(n + 1).drop_last() =~= items.take(n));
        lemma_place_stops(s, items, paths, n + 1);
    } else {
        assert(items.take(n) =~= items);
    }
}

impl Search {
    /// Place the items after those that have their paths in `placed` already, in order; the folder
    /// that has to be looked up before it can go on, if there is one.
    pub fn place(&mut self, items: &Vec<Item>, placed: &mut Vec<Option<String>>) -> (r: Option<
        String,
    >)
        requires
            old(self).wf(),
            old(placed)@.len() <= items@.len(),
        ensures
            final(self).wf(),
            final(self)@ == old(self)@,
            ({
                let rest = item_views(items@).skip(old(placed)@.len() as int);
                let now = old(self)@.place(rest, old(self).paths());
                &&& option_texts(final(placed)@) == option_texts(old(placed)@) + now.paths
                &&& final(self).paths() == now.after
                &&& crate::text::text_of(r) == now.need
                &&& now.need matches Some(id) ==> !old(self)@.known.contains_key(id)
            }),
            r is None ==> final(placed)@.len() == items@.len(),
            final(placed)@.len() <= items@.len(),
    {
        let ghost s = self@;
        let ghost first = self.paths();
        let ghost had = option_texts(placed@);
        let ghost rest = item_views(items@).skip(placed@.len() as int);
        assert(rest.take(0) =~= Seq::empty());
        assert(had + s.place(rest.take(0), first).paths =~= had);
        while placed.len() < items.len()
            invariant
                self.wf(),
                self@ == s,
                rest == item_views(items@).skip(had.len() as int),
                had.len() <= placed@.len() <= items@.len(),
                ({
                    let done = s.place(rest.take(placed@.len() - had.len()), first);
                    &&& done.need is None
                    &&& option_texts(placed@) == had + done.paths
                    &&& self.paths() == done.after
                }),
                first == old(self).paths(),
                s == old(self)@,
                had == option_texts(old(placed)@),
            decreases items@.len() - placed@.len(),
        {
            let ghost n = placed@.len() - had.len();
            let ghost was = option_texts(placed@);
            let ghost done = s.place(rest.take(n), first);
            let ghost next = s.place(rest.take(n + 1), first);
            let item = &items[placed.len()];
            assert(rest.take(n + 1).drop_last() =~= rest.take(n));
            assert(rest.take(n + 1).last() == item@);
            if !is_safe_name(item.name.as_str()) {
                placed.push(None);
                assert(option_texts(placed@) =~= was.push(None));
                assert(next.paths == done.paths.push(None));
                assert(option_texts(placed@) =~= had + next.paths);
            } else {
                match self.find(&item.parents) {
                    Found::At(p) => {
                        let mut path = p;
                        path.push_str("/");
                        path.push_str(item.name.as_str());
                        let ghost text = path@;
                        placed.push(Some(path));
                        assert(option_texts(placed@) =~= was.push(Some(text)));
                        assert(next.paths == done.paths.push(Some(text)));
                        assert(option_texts(placed@) =~= had + next.paths);
                    },
                    Found::Nowhere => {
                        placed.push(None);
                        assert(option_texts(placed@) =~= was.push(None));
                        assert(next.paths == done.paths.push(None));
                        assert(option_texts(placed@) =~= had + next.paths);
                    },
                    Found::Need(id) => {
                        proof {
                            lemma_place_stops(s, rest, first, n + 1);
                            lemma_need_is_unknown(s, item@.parents, done.after, 0);
                        }
                        return Some(id);
                    },
                }
            }
        }
        assert(rest.take(placed@.len() - had.len()) =~= rest);
        None
    }
}

/// Only a folder that was not looked up yet has to be.
pub proof fn lemma_need_is_unknown(
    s: SearchView,
    parents: Seq<Seq<char>>,
    paths: Paths,
    depth: nat,
)
    ensures
        s.above(parents, paths, depth).0 matches FoundView::Need(id) ==> !s.known.contains_key(id),
    decreases MAX_LIST_DEPTH - depth, 2int, parents.len(),
{
    if parents.len() > 0 {
        lemma_folder_need(s, parents[0], paths, depth);
        let (found, after) = s.folder(parents[0], paths, depth);
        if found is Nowhere {
            lemma_need_is_unknown(s, parents.skip(1), after, depth);
        }
    }
}

proof fn lemma_folder_need(s: SearchView, id: Seq<char>, paths: Paths, depth: nat)
    ensures
        s.folder(id, paths, depth).0 matches FoundView::Need(n) ==> !s.known.contains_key(n),
    decreases MAX_LIST_DEPTH - depth, 1int, 0int,
{
    if !s.roots.contains(id) && !paths.contains_key(id) && depth < MAX_LIST_DEPTH
        && s.known.contains_key(id) {
        if let Some(f) = s.known[id] {
            if !f.is_drive_root && crate::integrations::paths::safe_name(f.name) {
                lemma_need_is_unknown(s, f.parents, paths.insert(id, None), depth + 1);
            }
        }
    }
}

/// The links or tokens by which a listing went on so far.
#[derive(Debug)]
pub struct Pages {
    pub used: Vec<String>,
}

impl Pages {
    pub fn new() -> (r: Self)
        ensures
            r.used@.len() == 0,
    {
        Pages { used: Vec::new() }
    }

    /// Whether the listing may go on by `link`: one that was used before would go on forever.
    pub fn follow(&mut self, link: &str) -> (r: bool)
        ensures
            r == !crate::text::texts(old(self).used@).contains(link@),
            crate::text::texts(final(self).used@) == with(
                crate::text::texts(old(self).used@),
                link@,
            ),
    {
        insert(&mut self.used, link)
    }
}

/// An item is listed exactly where its name is safe, it was not met before under its id, and
/// nothing was listed at its path; it is then met, and its path taken.
pub proof fn law_new_items_are_listed(w: WalkView, s: Shown)
    ensures
        w.lists(s) <==> {
            &&& crate::integrations::paths::safe_name(s.name)
            &&& if w.apart && !s.is_folder {
                !w.files.contains(s.id)
            } else {
                !w.folders.contains(s.id)
            }
            &&& !w.paths.contains(s.place.prefix + "/"@ + s.name)
        },
        w.lists(s) ==> {
            &&& w.after(s).paths == w.paths.push(s.place.prefix + "/"@ + s.name)
            &&& w.apart && !s.is_folder ==> w.after(s).files == w.files.push(s.id) && w.after(
                s,
            ).folders == w.folders
            &&& !w.apart || s.is_folder ==> w.after(s).folders == w.folders.push(s.id) && w.after(
                s,
            ).files == w.files
        },
        !crate::integrations::paths::safe_name(s.name) ==> w.after(s) == w,
{
}

/// A folder that is listed is walked in its turn, after those that wait already, as long as it is
/// not too deep; a file never is.
pub proof fn law_listed_folders_are_walked(w: WalkView, s: Shown)
    ensures
        w.lists(s) && s.is_folder && s.place.depth < 31 ==> w.after(s).queue == w.queue.push(
            PlaceView {
                id: s.id,
                prefix: s.place.prefix + "/"@ + s.name,
                depth: s.place.depth + 1,
            },
        ),
        !w.lists(s) || !s.is_folder || s.place.depth >= 31 ==> w.after(s).queue == w.queue,
{
}

/// A listing goes on item by item: what is listed of a list and one more item is what is listed of
/// the list, and that item where it is new.
pub proof fn law_a_listing_goes_on(w: WalkView, shown: Seq<Shown>, s: Shown)
    ensures
        listed(w, Seq::empty()).len() == 0,
        after_all(w, Seq::empty()) == w,
        after_all(w, shown.push(s)) == after_all(w, shown).after(s),
        after_all(w, shown).lists(s) ==> listed(w, shown.push(s)) == listed(w, shown).push(s),
        !after_all(w, shown).lists(s) ==> listed(w, shown.push(s)) == listed(w, shown),
{
    assert(shown.push(s).drop_last() =~= shown);
}

/// A folder that was not looked at yet is found below the folder that its parents lead to, under
/// its name. The sync root is at the start of every path; a folder that nothing is known of has to
/// be looked up; and one that is gone, or whose name is not safe, is nowhere.
pub proof fn law_a_folder_is_found_below_its_parent(
    s: SearchView,
    id: Seq<char>,
    paths: Paths,
    depth: nat,
)
    requires
        depth < MAX_LIST_DEPTH,
    ensures
        s.roots.contains(id) ==> s.folder(id, paths, depth).0 == FoundView::At(Seq::empty()),
        !s.roots.contains(id) && !paths.contains_key(id) ==> {
            &&& !s.known.contains_key(id) ==> s.folder(id, paths, depth).0 == FoundView::Need(id)
            &&& s.known.contains_key(id) ==> match s.known[id] {
                None => s.folder(id, paths, depth).0 == FoundView::Nowhere,
                Some(f) => {
                    &&& f.is_drive_root && s.drive ==> s.folder(id, paths, depth).0
                        == FoundView::At(Seq::empty())
                    &&& f.is_drive_root && !s.drive ==> s.folder(id, paths, depth).0
                        == FoundView::Nowhere
                    &&& !f.is_drive_root && !crate::integrations::paths::safe_name(f.name)
                        ==> s.folder(id, paths, depth).0 == FoundView::Nowhere
                    &&& !f.is_drive_root && crate::integrations::paths::safe_name(f.name)
                        ==> match s.above(f.parents, paths.insert(id, None), depth + 1).0 {
                        FoundView::At(p) => s.folder(id, paths, depth).0 == FoundView::At(
                            p + "/"@ + f.name,
                        ),
                        other => s.folder(id, paths, depth).0 == other,
                    }
                },
            }
        },
        !s.roots.contains(id) && paths.contains_key(id) ==> match paths[id] {
            Some(p) => s.folder(id, paths, depth).0 == FoundView::At(p),
            None => s.folder(id, paths, depth).0 == FoundView::Nowhere,
        },
{
}

/// Of several parents the first that leads anywhere counts.
pub proof fn law_the_first_parent_that_leads_anywhere_counts(
    s: SearchView,
    parent: Seq<char>,
    others: Seq<Seq<char>>,
    paths: Paths,
    depth: nat,
)
    ensures
        s.above(Seq::empty(), paths, depth).0 == FoundView::Nowhere,
        s.folder(parent, paths, depth).0 == FoundView::Nowhere ==> s.above(
            seq![parent] + others,
            paths,
            depth,
        ) == s.above(others, s.folder(parent, paths, depth).1, depth),
        s.folder(parent, paths, depth).0 != FoundView::Nowhere ==> s.above(
            seq![parent] + others,
            paths,
            depth,
        ) == s.folder(parent, paths, depth),
{
    let all = seq![parent] + others;
    assert(all[0] == parent);
    assert(all.skip(1) =~= others);
}

/// An item is placed in the folder that its parents lead to, under its name; where they lead
/// nowhere, or its name is not safe, it has no place; and where a folder has to be looked up
/// first, nothing more is placed.
pub proof fn law_an_item_is_placed_below_its_parent(
    s: SearchView,
    items: Seq<ItemView>,
    item: ItemView,
    paths: Paths,
)
    requires
        s.place(items, paths).need is None,
    ensures
        s.place(Seq::empty(), paths).paths.len() == 0,
        ({
            let before = s.place(items, paths);
            let now = s.place(items.push(item), paths);
            if !crate::integrations::paths::safe_name(item.name) {
                now.paths == before.paths.push(None) && now.need is None
            } else {
                match s.above(item.parents, before.after, 0).0 {
                    FoundView::At(p) => now.paths == before.paths.push(
                        Some(p + "/"@ + item.name),
                    ) && now.need is None,
                    FoundView::Nowhere => now.paths == before.paths.push(None) && now.need is None,
                    FoundView::Need(id) => now.paths == before.paths && now.need == Some(id),
                }
            }
        }),
{
    assert(items.push(item).drop_last() =~= items);
}

} // verus!
