//! The workspace registry: a stable short slug per project path, used to
//! scope a bot's memory and history. A slug bound to a living path is never
//! reassigned; a slug whose path is gone is inherited by a new path with the
//! same name, so a moved project keeps its history.

use vstd::prelude::*;

verus! {

use crate::numfmt::dec_of;
use crate::numfmt::dec_of_int;
use crate::numfmt::i64_to_string;
use crate::numfmt::u64_to_string;
use crate::text::push_char;
use crate::text::split_on;
use crate::text::split_on_char;
use crate::text::str_eq;

/// A single registered workspace.
pub struct WorkspaceEntry {
    /// Short slug used in directory names and command-line flags.
    pub slug: String,
    /// Seconds since the epoch when this workspace was first registered.
    pub first_seen: i64,
    /// Seconds since the epoch when this workspace was last used.
    pub last_used: i64,
}

/// The mathematical value of a registry entry.
pub ghost struct EntryV {
    pub slug: Seq<char>,
    pub first_seen: int,
    pub last_used: int,
}

impl View for WorkspaceEntry {
    type V = EntryV;

    open spec fn view(&self) -> EntryV {
        EntryV {
            slug: self.slug@,
            first_seen: self.first_seen as int,
            last_used: self.last_used as int,
        }
    }
}

/// A registered (path, entry) pair.
pub ghost struct PairV {
    pub path: Seq<char>,
    pub entry: EntryV,
}

/// Registry of all known workspaces for a bot, keyed by canonical path.
pub struct WorkspaceRegistry {
    pub workspaces: Vec<(String, WorkspaceEntry)>,
}

impl WorkspaceRegistry {
    /// The registry as a sequence of (path, entry) pairs, in insertion order.
    pub open spec fn entries_v(self) -> Seq<PairV> {
        Seq::new(
            self.workspaces@.len(),
            |i: int|
                PairV {
                    path: self.workspaces@[i].0@,
                    entry: self.workspaces@[i].1@,
                },
        )
    }

    /// Paths are unique: one entry per canonical path.
    pub open spec fn wf(self) -> bool {
        distinct_paths(self.entries_v())
    }
}

/// Lowercase an ASCII letter; anything else stands.
pub open spec fn lower_char(c: char) -> char {
    if 'A' <= c && c <= 'Z' {
        (((c as u8) + 32) as char)
    } else {
        c
    }
}

/// The slug image of one character: lowercased letters, digits and hyphens
/// stand; everything else becomes a hyphen.
pub open spec fn slug_char(c: char) -> char {
    let l = lower_char(c);
    if ('a' <= l && l <= 'z') || ('0' <= l && l <= '9') || l == '-' {
        l
    } else {
        '-'
    }
}

/// Each character mapped through `slug_char`.
pub open spec fn map_slug(s: Seq<char>) -> Seq<char>
    decreases s.len(),
{
    if s.len() == 0 {
        Seq::empty()
    } else {
        map_slug(s.drop_last()).push(slug_char(s.last()))
    }
}

/// One step of hyphen collapsing: a hyphen is kept only after a non-hyphen.
pub open spec fn collapse_step(acc: Seq<char>, c: char) -> Seq<char> {
    if c == '-' {
        if acc.len() == 0 || acc.last() == '-' {
            acc
        } else {
            acc.push('-')
        }
    } else {
        acc.push(c)
    }
}

/// Collapse hyphen runs and drop leading hyphens.
pub open spec fn collapse_hyphens(s: Seq<char>) -> Seq<char>
    decreases s.len(),
{
    if s.len() == 0 {
        Seq::empty()
    } else {
        collapse_step(collapse_hyphens(s.drop_last()), s.last())
    }
}

/// Drop the (single possible) trailing hyphen.
pub open spec fn trim_trailing_hyphen(s: Seq<char>) -> Seq<char> {
    if s.len() > 0 && s.last() == '-' {
        s.drop_last()
    } else {
        s
    }
}

/// The slug of a name: lowercase, non-alphanumeric/non-hyphen to `-`,
/// hyphen runs collapsed, leading and trailing hyphens trimmed.
pub open spec fn spec_slugify(name: Seq<char>) -> Seq<char> {
    trim_trailing_hyphen(collapse_hyphens(map_slug(name)))
}

/// The last nonempty `/`-separated segment.
pub open spec fn last_nonempty(parts: Seq<Seq<char>>) -> Seq<char>
    decreases parts.len(),
{
    if parts.len() == 0 {
        Seq::empty()
    } else if parts.last().len() > 0 {
        parts.last()
    } else {
        last_nonempty(parts.drop_last())
    }
}

/// The name a path's slug is derived from: its final component, or
/// `project` when the path has none.
pub open spec fn spec_path_name(path: Seq<char>) -> Seq<char> {
    let name = last_nonempty(split_on(path, '/'));
    if name.len() == 0 {
        "project"@
    } else {
        name
    }
}

/// The slug of a path's final component.
pub open spec fn spec_slug_from_path(path: Seq<char>) -> Seq<char> {
    spec_slugify(spec_path_name(path))
}

fn exec_slug_char(c: char) -> (r: char)
    ensures
        r == slug_char(c),
{
    let l: char = if c >= 'A' && c <= 'Z' {
        (((c as u8) + 32) as char)
    } else {
        c
    };
    if (l >= 'a' && l <= 'z') || (l >= '0' && l <= '9') || l == '-' {
        l
    } else {
        '-'
    }
}

/// Derive a filesystem-safe slug from a path's final component.
pub fn slug_from_path(path: &str) -> (r: String)
    ensures
        r@ == spec_slug_from_path(path@),
{
    let parts = split_on_char(path, '/');
    let mut name: &str = "";
    let mut idx: usize = parts.len();
    proof {
        reveal_strlit("");
        assert(parts.deep_view().subrange(0, parts.len() as int) =~= parts.deep_view());
        assert(name@ =~= Seq::<char>::empty());
    }
    while idx > 0
        invariant
            idx <= parts.len(),
            parts.deep_view() == split_on(path@, '/'),
            name@ == last_nonempty(parts.deep_view()) || (name@ == Seq::<char>::empty()
                && last_nonempty(parts.deep_view().subrange(0, idx as int)) == last_nonempty(
            parts.deep_view())),
            name@.len() == 0 ==> last_nonempty(parts.deep_view().subrange(0, idx as int))
                == last_nonempty(parts.deep_view()),
            name@.len() > 0 ==> name@ == last_nonempty(parts.deep_view()),
        decreases idx,
    {
        if name.is_empty() {
            proof {
                let pre = parts.deep_view().subrange(0, idx as int);
                assert(pre.drop_last() =~= parts.deep_view().subrange(0, idx as int - 1));
                assert(pre.last() == parts.deep_view()[idx - 1]);
            }
            if !parts[idx - 1].as_str().is_empty() {
                name = parts[idx - 1].as_str();
            }
        }
        idx = idx - 1;
    }
    proof {
        if name@.len() == 0 {
            assert(parts.deep_view().subrange(0, 0) =~= Seq::<Seq<char>>::empty());
        }
    }
    let base: &str = if name.is_empty() {
        "project"
    } else {
        name
    };
    proof {
        assert(base@ == spec_path_name(path@));
    }
    let n = base.unicode_len();
    let mut out = String::new();
    let mut i: usize = 0;
    proof {
        assert(base@.subrange(0, 0) =~= Seq::<char>::empty());
        assert(map_slug(Seq::<char>::empty()) == Seq::<char>::empty());
    }
    while i < n
        invariant
            i <= n,
            n == base@.len(),
            out@ == collapse_hyphens(map_slug(base@.subrange(0, i as int))),
        decreases n - i,
    {
        let c = base.get_char(i);
        proof {
            let pre = base@.subrange(0, i as int);
            let cur = base@.subrange(0, i as int + 1);
            assert(cur.drop_last() =~= pre);
            assert(cur.last() == base@[i as int]);
            assert(map_slug(cur).drop_last() =~= map_slug(pre));
            assert(map_slug(cur) == map_slug(pre).push(slug_char(base@[i as int])));
            assert(map_slug(cur).last() == slug_char(base@[i as int]));
        }
        let sc = exec_slug_char(c);
        if sc == '-' {
            let keep = !out.as_str().is_empty() && !ends_with_hyphen(&out);
            if keep {
                push_char(&mut out, '-');
            }
        } else {
            push_char(&mut out, sc);
        }
        i = i + 1;
    }
    proof {
        assert(base@.subrange(0, n as int) =~= base@);
    }
    if !out.as_str().is_empty() && ends_with_hyphen(&out) {
        let m = out.unicode_len();
        let trimmed = out.as_str().substring_char(0, m - 1).to_owned();
        proof {
            assert(trimmed@ =~= out@.drop_last());
        }
        trimmed
    } else {
        out
    }
}

fn ends_with_hyphen(s: &String) -> (r: bool)
    requires
        s@.len() > 0,
    ensures
        r == (s@.last() == '-'),
{
    let n = s.as_str().unicode_len();
    s.as_str().get_char(n - 1) == '-'
}

/// Whether some registered entry already uses `slug`.
pub open spec fn slug_taken(entries: Seq<PairV>, slug: Seq<char>) -> bool {
    exists|i: int| 0 <= i < entries.len() && #[trigger] entries[i].entry.slug == slug
}

/// `base-i` as text.
pub open spec fn numbered_slug(base: Seq<char>, i: int) -> Seq<char> {
    base + seq!['-'] + dec_of(i)
}

/// The first free candidate among `base-2`, `base-3`, ... `base-100`; past
/// those, the timestamp variant.
pub open spec fn unique_slug_from(entries: Seq<PairV>, base: Seq<char>, i: int, now: int) -> Seq<
    char,
>
    decreases 101 - i,
{
    if i > 100 {
        base + seq!['-'] + dec_of_int(now)
    } else if !slug_taken(entries, numbered_slug(base, i)) {
        numbered_slug(base, i)
    } else {
        unique_slug_from(entries, base, i + 1, now)
    }
}

/// The slug a new entry receives: `base` when free, else the first free
/// numbered variant.
pub open spec fn spec_unique_slug(entries: Seq<PairV>, base: Seq<char>, now: int) -> Seq<char> {
    if !slug_taken(entries, base) {
        base
    } else {
        unique_slug_from(entries, base, 2, now)
    }
}

/// The registry with stale holders of `slug` evicted: entries whose slug is
/// `slug` and whose path is not among the live paths are dropped.
pub open spec fn spec_evict(entries: Seq<PairV>, slug: Seq<char>, live: Seq<Seq<char>>) -> Seq<
    PairV,
>
    decreases entries.len(),
{
    if entries.len() == 0 {
        Seq::empty()
    } else {
        let rest = spec_evict(entries.drop_last(), slug, live);
        let last = entries.last();
        if last.entry.slug == slug && !live.contains(last.path) {
            rest
        } else {
            rest.push(last)
        }
    }
}

/// Pairwise-distinct paths.
pub open spec fn distinct_paths(s: Seq<PairV>) -> bool {
    forall|i: int, j: int|
        0 <= i < j < s.len() ==> #[trigger] s[i].path != #[trigger] s[j].path
}

/// Eviction keeps only entries of the given registry and preserves the
/// one-entry-per-path discipline.
pub proof fn lemma_evict_keeps(entries: Seq<PairV>, slug: Seq<char>, live: Seq<Seq<char>>)
    ensures
        forall|p: PairV|
            #[trigger] spec_evict(entries, slug, live).contains(p) ==> entries.contains(p),
        distinct_paths(entries) ==> distinct_paths(spec_evict(entries, slug, live)),
    decreases entries.len(),
{
    if entries.len() == 0 {
    } else {
        let hd = entries.drop_last();
        let last = entries.last();
        lemma_evict_keeps(hd, slug, live);
        let rest = spec_evict(hd, slug, live);
        let whole = spec_evict(entries, slug, live);
        assert(forall|i: int| 0 <= i < hd.len() ==> hd[i] == entries[i]);
        assert forall|p: PairV| #[trigger] whole.contains(p) implies entries.contains(p) by {
            let i = choose|i: int| 0 <= i < whole.len() && whole[i] == p;
            if i < rest.len() {
                assert(rest.contains(p));
                assert(hd.contains(p));
                let j = choose|j: int| 0 <= j < hd.len() && hd[j] == p;
                assert(entries[j] == p);
            } else {
                assert(whole[i] == last);
                assert(entries[entries.len() - 1] == p);
            }
        }
        if distinct_paths(entries) {
            assert(distinct_paths(hd));
            if last.entry.slug == slug && !live.contains(last.path) {
            } else {
                assert(whole == rest.push(last));
                assert forall|i: int, j: int| 0 <= i < j < whole.len() implies whole[i].path
                    != whole[j].path by {
                    if j < rest.len() {
                        assert(whole[i] == rest[i] && whole[j] == rest[j]);
                    } else {
                        assert(whole[j] == last);
                        assert(whole[i] == rest[i]);
                        assert(rest.contains(rest[i]));
                        assert(hd.contains(rest[i]));
                        let m = choose|m: int| 0 <= m < hd.len() && hd[m] == rest[i];
                        assert(entries[m].path != entries[entries.len() - 1].path);
                    }
                }
            }
        }
    }
}

impl WorkspaceRegistry {
    /// An empty registry.
    pub fn new() -> (r: WorkspaceRegistry)
        ensures
            r.entries_v() == Seq::<PairV>::empty(),
            r.wf(),
    {
        let r = WorkspaceRegistry { workspaces: Vec::new() };
        proof {
            assert(r.entries_v() =~= Seq::<PairV>::empty());
        }
        r
    }

    /// The index of the entry for `path`, if one exists.
    fn find_path(&self, path: &str) -> (r: Option<usize>)
        ensures
            match r {
                Some(i) => i < self.entries_v().len() && self.entries_v()[i as int].path == path@,
                None => forall|i: int|
                    0 <= i < self.entries_v().len() ==> #[trigger] self.entries_v()[i].path
                        != path@,
            },
    {
        let mut i: usize = 0;
        while i < self.workspaces.len()
            invariant
                i <= self.workspaces.len(),
                forall|j: int| 0 <= j < i ==> #[trigger] self.entries_v()[j].path != path@,
            decreases self.workspaces.len() - i,
        {
            if str_eq(self.workspaces[i].0.as_str(), path) {
                return Some(i);
            }
            i = i + 1;
        }
        None
    }

    /// Whether any entry holds `slug`.
    fn is_slug_taken(&self, slug: &str) -> (r: bool)
        ensures
            r == slug_taken(self.entries_v(), slug@),
    {
        let mut i: usize = 0;
        while i < self.workspaces.len()
            invariant
                i <= self.workspaces.len(),
                forall|j: int| 0 <= j < i ==> #[trigger] self.entries_v()[j].entry.slug != slug@,
            decreases self.workspaces.len() - i,
        {
            if str_eq(self.workspaces[i].1.slug.as_str(), slug) {
                proof {
                    assert(self.entries_v()[i as int].entry.slug == slug@);
                }
                return true;
            }
            i = i + 1;
        }
        false
    }

    /// Choose a slug not yet in use: `base` when free, else `base-2`,
    /// `base-3`, ... and as a last resort a timestamp suffix.
    pub fn unique_slug(&self, base: &str, now: i64) -> (r: String)
        ensures
            r@ == spec_unique_slug(self.entries_v(), base@, now as int),
    {
        if !self.is_slug_taken(base) {
            return base.to_owned();
        }
        let mut i: u64 = 2;
        while i <= 100
            invariant
                2 <= i <= 101,
                slug_taken(self.entries_v(), base@),
                spec_unique_slug(self.entries_v(), base@, now as int) == unique_slug_from(
                    self.entries_v(),
                    base@,
                    i as int,
                    now as int,
                ),
            decreases 101 - i,
        {
            let mut cand = base.to_owned();
            push_char(&mut cand, '-');
            let digits = u64_to_string(i);
            cand.append(digits.as_str());
            proof {
                assert(cand@ =~= numbered_slug(base@, i as int));
            }
            if !self.is_slug_taken(cand.as_str()) {
                return cand;
            }
            i = i + 1;
        }
        let mut cand = base.to_owned();
        push_char(&mut cand, '-');
        let digits = i64_to_string(now);
        cand.append(digits.as_str());
        proof {
            assert(cand@ =~= base@ + seq!['-'] + dec_of_int(now as int));
        }
        cand
    }

    /// Drop entries that hold `slug` but whose path no longer exists (is not
    /// among `live_paths`), so a new path can inherit the slug.
    pub fn evict_stale_for_slug(&mut self, slug: &str, live_paths: &Vec<String>)
        ensures
            final(self).entries_v() == spec_evict(
                old(self).entries_v(),
                slug@,
                live_paths.deep_view(),
            ),
            final(self).wf() <== old(self).wf(),
    {
        let ghost orig = self.entries_v();
        let mut kept: Vec<(String, WorkspaceEntry)> = Vec::new();
        let mut i: usize = 0;
        let n = self.workspaces.len();
        proof {
            assert(orig.subrange(0, 0) =~= Seq::<PairV>::empty());
            assert(Seq::new(
                kept@.len(),
                |k: int| PairV { path: kept@[k].0@, entry: kept@[k].1@ },
            ) =~= spec_evict(orig.subrange(0, 0), slug@, live_paths.deep_view()));
        }
        while i < n
            invariant
                i <= n,
                n == self.workspaces.len(),
                orig == self.entries_v(),
                Seq::new(kept@.len(), |k: int| PairV { path: kept@[k].0@, entry: kept@[k].1@ })
                    == spec_evict(orig.subrange(0, i as int), slug@, live_paths.deep_view()),
            decreases n - i,
        {
            proof {
                let pre = orig.subrange(0, i as int);
                let cur = orig.subrange(0, i as int + 1);
                assert(cur.drop_last() =~= pre);
                assert(cur.last() == orig[i as int]);
            }
            let is_stale = str_eq(self.workspaces[i].1.slug.as_str(), slug) && !contains_string(
                live_paths,
                self.workspaces[i].0.as_str(),
            );
            if !is_stale {
                let path_copy = clone_string(&self.workspaces[i].0);
                let entry_copy = WorkspaceEntry {
                    slug: clone_string(&self.workspaces[i].1.slug),
                    first_seen: self.workspaces[i].1.first_seen,
                    last_used: self.workspaces[i].1.last_used,
                };
                kept.push((path_copy, entry_copy));
            }
            proof {
                assert(Seq::new(
                    kept@.len(),
                    |k: int| PairV { path: kept@[k].0@, entry: kept@[k].1@ },
                ) =~= spec_evict(orig.subrange(0, i as int + 1), slug@, live_paths.deep_view()));
            }
            i = i + 1;
        }
        proof {
            assert(orig.subrange(0, n as int) =~= orig);
        }
        self.workspaces = kept;
        proof {
            assert(self.entries_v() =~= spec_evict(orig, slug@, live_paths.deep_view()));
            lemma_evict_keeps(orig, slug@, live_paths.deep_view());
        }
    }
}

/// Whether some entry is registered under `path`.
pub open spec fn has_path(entries: Seq<PairV>, path: Seq<char>) -> bool {
    exists|i: int| 0 <= i < entries.len() && #[trigger] entries[i].path == path
}

/// What registering a path does: an already-registered path only has its
/// `last_used` refreshed and keeps its slug; a new path first evicts stale
/// holders of its base slug, then receives a free slug and a fresh entry.
pub open spec fn spec_register(
    entries: Seq<PairV>,
    path: Seq<char>,
    now: int,
    live: Seq<Seq<char>>,
) -> (Seq<PairV>, Seq<char>) {
    if has_path(entries, path) {
        let i = choose|i: int| 0 <= i < entries.len() && #[trigger] entries[i].path == path;
        let e = entries[i].entry;
        (
            entries.update(
                i,
                PairV {
                    path,
                    entry: EntryV { slug: e.slug, first_seen: e.first_seen, last_used: now },
                },
            ),
            e.slug,
        )
    } else {
        let base = spec_slug_from_path(path);
        let after = spec_evict(entries, base, live);
        let slug = spec_unique_slug(after, base, now);
        (
            after.push(PairV { path, entry: EntryV { slug, first_seen: now, last_used: now } }),
            slug,
        )
    }
}

impl WorkspaceRegistry {
    /// Register (or refresh) a workspace under its canonical path and return
    /// its slug. `live_paths` lists the registered paths that still exist on
    /// disk: a slug whose holder is absent from it may be inherited.
    pub fn register(&mut self, canonical_path: &str, now: i64, live_paths: &Vec<String>) -> (slug:
        String)
        requires
            old(self).wf(),
        ensures
            final(self).wf(),
            final(self).entries_v() == spec_register(
                old(self).entries_v(),
                canonical_path@,
                now as int,
                live_paths.deep_view(),
            ).0,
            slug@ == spec_register(
                old(self).entries_v(),
                canonical_path@,
                now as int,
                live_paths.deep_view(),
            ).1,
    {
        let ghost orig = self.entries_v();
        match self.find_path(canonical_path) {
            Some(i) => {
                proof {
                    assert(has_path(orig, canonical_path@));
                    let w = choose|w: int|
                        0 <= w < orig.len() && #[trigger] orig[w].path == canonical_path@;
                    assert(w == i) by {
                        if w != i {
                            if w < i {
                                assert(orig[w].path != orig[i as int].path);
                            } else {
                                assert(orig[i as int].path != orig[w].path);
                            }
                        }
                    }
                }
                let pair = self.workspaces.remove(i);
                let slug = clone_string(&pair.1.slug);
                let updated = WorkspaceEntry {
                    slug: pair.1.slug,
                    first_seen: pair.1.first_seen,
                    last_used: now,
                };
                self.workspaces.insert(i, (pair.0, updated));
                proof {
                    let target = spec_register(
                        orig,
                        canonical_path@,
                        now as int,
                        live_paths.deep_view(),
                    ).0;
                    assert(self.entries_v() =~= target);
                    assert(self.wf()) by {
                        assert(forall|j: int|
                            0 <= j < orig.len() ==> #[trigger] self.entries_v()[j].path
                                == orig[j].path);
                    }
                }
                slug
            },
            None => {
                let base = slug_from_path(canonical_path);
                self.evict_stale_for_slug(base.as_str(), live_paths);
                let ghost after = self.entries_v();
                let slug = self.unique_slug(base.as_str(), now);
                let entry = WorkspaceEntry {
                    slug: clone_string(&slug),
                    first_seen: now,
                    last_used: now,
                };
                self.workspaces.push((canonical_path.to_owned(), entry));
                proof {
                    assert(!has_path(orig, canonical_path@));
                    let target = spec_register(
                        orig,
                        canonical_path@,
                        now as int,
                        live_paths.deep_view(),
                    ).0;
                    assert(self.entries_v() =~= target);
                    lemma_evict_keeps(orig, base@, live_paths.deep_view());
                    assert(self.wf()) by {
                        let dv = self.entries_v();
                        assert(forall|j: int| 0 <= j < after.len() ==> dv[j] == after[j]);
                        assert(dv[dv.len() - 1].path == canonical_path@);
                        assert forall|i: int, j: int| 0 <= i < j < dv.len() implies dv[i].path
                            != dv[j].path by {
                            if j < after.len() {
                                assert(distinct_paths(after));
                            } else {
                                assert(after.contains(after[i]));
                                assert(orig.contains(after[i]));
                                let m = choose|m: int|
                                    0 <= m < orig.len() && orig[m] == after[i];
                                assert(orig[m].path != canonical_path@);
                            }
                        }
                    }
                }
                slug
            },
        }
    }

    /// Look up a workspace entry by its slug.
    pub fn find_by_slug(&self, slug: &str) -> (r: Option<(&String, &WorkspaceEntry)>)
        ensures
            match r {
                Some(p) => p.1@.slug == slug@ && self.entries_v().contains(
                    PairV { path: p.0@, entry: p.1@ },
                ),
                None => !slug_taken(self.entries_v(), slug@),
            },
    {
        let mut i: usize = 0;
        while i < self.workspaces.len()
            invariant
                i <= self.workspaces.len(),
                forall|j: int| 0 <= j < i ==> #[trigger] self.entries_v()[j].entry.slug != slug@,
            decreases self.workspaces.len() - i,
        {
            if str_eq(self.workspaces[i].1.slug.as_str(), slug) {
                let pair = &self.workspaces[i];
                proof {
                    assert(self.entries_v()[i as int] == (PairV { path: pair.0@, entry: pair.1@ }));
                }
                return Some((&pair.0, &pair.1));
            }
            i = i + 1;
        }
        proof {
            if slug_taken(self.entries_v(), slug@) {
                let j = choose|j: int|
                    0 <= j < self.entries_v().len() && #[trigger] self.entries_v()[j].entry.slug
                        == slug@;
            }
        }
        None
    }
}

/// Registration preserves the one-entry-per-path discipline, and afterwards
/// the path is registered under the returned slug.
pub proof fn lemma_register_wf(
    entries: Seq<PairV>,
    path: Seq<char>,
    now: int,
    live: Seq<Seq<char>>,
)
    requires
        distinct_paths(entries),
    ensures
        distinct_paths(spec_register(entries, path, now, live).0),
        has_path(spec_register(entries, path, now, live).0, path),
        ({
            let (e1, s1) = spec_register(entries, path, now, live);
            forall|i: int|
                0 <= i < e1.len() && #[trigger] e1[i].path == path ==> e1[i].entry.slug == s1
        }),
{
    let (e1, s1) = spec_register(entries, path, now, live);
    if has_path(entries, path) {
        let w = choose|i: int| 0 <= i < entries.len() && #[trigger] entries[i].path == path;
        assert(e1[w].path == path);
        assert(forall|j: int| 0 <= j < e1.len() ==> #[trigger] e1[j].path == entries[j].path);
        assert(distinct_paths(e1));
        assert forall|i: int| 0 <= i < e1.len() && #[trigger] e1[i].path == path implies
        e1[i].entry.slug == s1 by {
            if i != w {
                if i < w {
                    assert(e1[i].path != e1[w].path);
                } else {
                    assert(e1[w].path != e1[i].path);
                }
            }
        }
    } else {
        let base = spec_slug_from_path(path);
        let after = spec_evict(entries, base, live);
        lemma_evict_keeps(entries, base, live);
        assert(e1 == after.push(PairV { path, entry: e1.last().entry }));
        assert(e1[e1.len() - 1].path == path);
        assert forall|i: int, j: int| 0 <= i < j < e1.len() implies e1[i].path != e1[j].path by {
            if j < after.len() {
                assert(e1[i] == after[i] && e1[j] == after[j]);
                assert(distinct_paths(after));
            } else {
                assert(e1[i] == after[i]);
                assert(after.contains(after[i]));
                assert(entries.contains(after[i]));
                let m = choose|m: int| 0 <= m < entries.len() && entries[m] == after[i];
                assert(entries[m].path != path);
            }
        }
        assert forall|i: int| 0 <= i < e1.len() && #[trigger] e1[i].path == path implies
        e1[i].entry.slug == s1 by {
            if i < after.len() {
                assert(after.contains(after[i]));
                assert(entries.contains(after[i]));
                let m = choose|m: int| 0 <= m < entries.len() && entries[m] == after[i];
                assert(entries[m].path != path);
            }
        }
    }
}

/// Registering the same path again returns the same slug and changes no
/// entry's path or slug: registration is idempotent up to `last_used`.
pub proof fn lemma_register_idempotent(
    entries: Seq<PairV>,
    path: Seq<char>,
    t1: int,
    t2: int,
    live: Seq<Seq<char>>,
)
    requires
        distinct_paths(entries),
    ensures
        ({
            let (e1, s1) = spec_register(entries, path, t1, live);
            let (e2, s2) = spec_register(e1, path, t2, live);
            &&& s2 == s1
            &&& e2.len() == e1.len()
            &&& forall|i: int|
                0 <= i < e1.len() ==> #[trigger] e2[i].path == e1[i].path && e2[i].entry.slug
                    == e1[i].entry.slug
        }),
{
    let (e1, s1) = spec_register(entries, path, t1, live);
    let (e2, s2) = spec_register(e1, path, t2, live);
    lemma_register_wf(entries, path, t1, live);
    assert(has_path(e1, path));
    let w = choose|i: int| 0 <= i < e1.len() && #[trigger] e1[i].path == path;
    assert(e1[w].entry.slug == s1);
    assert(s2 == e1[w].entry.slug);
    assert(forall|j: int|
        0 <= j < e2.len() ==> #[trigger] e2[j].path == e1[j].path && e2[j].entry.slug
            == e1[j].entry.slug);
}

/// Eviction for a slug nobody holds changes nothing.
pub proof fn lemma_evict_no_holder(entries: Seq<PairV>, slug: Seq<char>, live: Seq<Seq<char>>)
    requires
        !slug_taken(entries, slug),
    ensures
        spec_evict(entries, slug, live) == entries,
    decreases entries.len(),
{
    if entries.len() > 0 {
        let hd = entries.drop_last();
        assert(forall|i: int| 0 <= i < hd.len() ==> hd[i] == entries[i]);
        assert(!slug_taken(hd, slug)) by {
            if slug_taken(hd, slug) {
                let i = choose|i: int| 0 <= i < hd.len() && #[trigger] hd[i].entry.slug == slug;
                assert(entries[i].entry.slug == slug);
            }
        }
        lemma_evict_no_holder(hd, slug, live);
        assert(entries[entries.len() - 1].entry.slug != slug);
        assert(spec_evict(entries, slug, live) =~= entries);
    } else {
        assert(spec_evict(entries, slug, live) =~= entries);
    }
}

/// When a registered path is gone from disk, a new path with the same final
/// name inherits its slug: the stale entry is evicted and the base slug is
/// free again.
pub proof fn lemma_register_inherits_slug(
    entries: Seq<PairV>,
    path_a: Seq<char>,
    path_b: Seq<char>,
    t1: int,
    t2: int,
    live: Seq<Seq<char>>,
)
    requires
        distinct_paths(entries),
        spec_slug_from_path(path_a) == spec_slug_from_path(path_b),
        !slug_taken(entries, spec_slug_from_path(path_a)),
        forall|i: int|
            0 <= i < entries.len() ==> #[trigger] entries[i].path != path_a && entries[i].path
                != path_b,
        !live.contains(path_a),
        path_a != path_b,
    ensures
        spec_register(entries, path_a, t1, live).1 == spec_slug_from_path(path_a),
        spec_register(spec_register(entries, path_a, t1, live).0, path_b, t2, live).1
            == spec_slug_from_path(path_a),
{
    let base = spec_slug_from_path(path_a);
    assert(!has_path(entries, path_a)) by {
        if has_path(entries, path_a) {
            let i = choose|i: int| 0 <= i < entries.len() && #[trigger] entries[i].path == path_a;
        }
    }
    lemma_evict_no_holder(entries, base, live);
    let after1 = spec_evict(entries, base, live);
    assert(after1 == entries);
    assert(spec_register(entries, path_a, t1, live).1 == base);
    let e1 = spec_register(entries, path_a, t1, live).0;
    let fresh = PairV {
        path: path_a,
        entry: EntryV { slug: base, first_seen: t1, last_used: t1 },
    };
    assert(e1 == entries.push(fresh));
    assert(!has_path(e1, path_b)) by {
        if has_path(e1, path_b) {
            let i = choose|i: int| 0 <= i < e1.len() && #[trigger] e1[i].path == path_b;
            if i < entries.len() {
                assert(entries[i].path != path_b);
            } else {
                assert(e1[i].path == path_a);
            }
        }
    }
    let after2 = spec_evict(e1, base, live);
    assert(after2 == spec_evict(entries, base, live)) by {
        assert(e1.drop_last() =~= entries);
    }
    assert(after2 == entries);
    assert(!slug_taken(after2, base));
    assert(spec_register(e1, path_b, t2, live).1 == base);
}

/// The project root for a working directory: the repository root when one
/// was resolved, so worktrees of the same repository share a workspace,
/// else the directory itself.
pub fn detect_project_root(repo_root: Option<&str>, cwd: &str) -> (r: String)
    ensures
        r@ == (match repo_root {
            Some(root) => root@,
            None => cwd@,
        }),
{
    match repo_root {
        Some(root) => root.to_owned(),
        None => cwd.to_owned(),
    }
}

/// Whether `v` holds a string equal to `s`.
pub fn contains_string(v: &Vec<String>, s: &str) -> (r: bool)
    ensures
        r == v.deep_view().contains(s@),
{
    let mut i: usize = 0;
    while i < v.len()
        invariant
            i <= v.len(),
            forall|j: int| 0 <= j < i ==> v.deep_view()[j] != s@,
        decreases v.len() - i,
    {
        if str_eq(v[i].as_str(), s) {
            proof {
                assert(v.deep_view()[i as int] == s@);
            }
            return true;
        }
        i = i + 1;
    }
    proof {
        if v.deep_view().contains(s@) {
            let j = choose|j: int| 0 <= j < v.deep_view().len() && v.deep_view()[j] == s@;
        }
    }
    false
}

/// A string copy with the same characters.
pub fn clone_string(s: &String) -> (r: String)
    ensures
        r@ == s@,
{
    s.as_str().to_owned()
}

} // verus!
