//! A directory of rules files laid out for `test -d`: each rules file with the test files of the
//! `tests` directory beside it that belong to it, and the test files no rules file took.
use vstd::prelude::*;

use crate::commands::test::{
    claiming_rules_file, is_prefix, is_test_file_name, rules_file_prefix, rules_file_stem,
    test_file_name,
};
use crate::sorted::strictly_sorted;
use crate::text::{lemma_seq_lt_irreflexive, lemma_seq_lt_total, lemma_seq_lt_transitive, seq_lt, str_eq, str_lt, views};

verus! {

/// A file met while walking the directory, in walk order, as the walk reports it.
pub struct WalkedFile {
    /// The file's path.
    pub path: String,
    /// The file's name.
    pub name: String,
    /// The path of the directory holding the file.
    pub parent: String,
    /// That directory is named `tests`.
    pub in_tests_dir: bool,
    /// The path of the directory above that one, if there is one.
    pub grandparent: Option<String>,
}

/// A rules file with the test files that belong to it.
pub struct GuardFile {
    /// The rules file's name without its extension.
    pub prefix: String,
    /// The rules file's path.
    pub path: String,
    /// The paths of its test files, in walk order.
    pub test_files: Vec<String>,
}

impl GuardFile {
    /// The paths of the rules file's test files, in walk order.
    pub fn get_test_files(&self) -> (r: Vec<String>)
        ensures
            views(r@) == views(self.test_files@),
    {
        let mut r: Vec<String> = Vec::new();
        let mut i: usize = 0;
        while i < self.test_files.len()
            invariant
                i <= self.test_files@.len(),
                views(r@) == views(self.test_files@.take(i as int)),
            decreases self.test_files.len() - i,
        {
            let ghost before = r@;
            let f = self.test_files[i].clone();
            assert(f == self.test_files@[i as int]);
            r.push(f);
            assert(r@ == before.push(self.test_files@[i as int]));
            assert(self.test_files@.take(i + 1) =~= self.test_files@.take(i as int).push(
                self.test_files@[i as int],
            ));
            assert(views(before.push(self.test_files@[i as int])) =~= views(before).push(
                self.test_files@[i as int]@,
            ));
            assert(views(self.test_files@.take(i as int).push(self.test_files@[i as int]))
                =~= views(self.test_files@.take(i as int)).push(self.test_files@[i as int]@));
            i += 1;
        }
        assert(self.test_files@.take(i as int) =~= self.test_files@);
        r
    }
}

/// The rules files of a directory tree, grouped by the directory holding them in sorted order,
/// each group in walk order; and the test files no rules file took.
pub struct OrderedTestDirectory {
    pub files: Vec<(String, Vec<GuardFile>)>,
    pub orphaned_test_files: Vec<String>,
}

/// `e` is a rules file.
pub open spec fn is_rules_entry(e: WalkedFile) -> bool {
    rules_file_stem(e.name@) is Some
}

/// `e` is a test file in a `tests` directory.
pub open spec fn is_test_entry(e: WalkedFile) -> bool {
    !is_rules_entry(e) && test_file_name(e.name@) && e.in_tests_dir
}

/// The rules files of `entries` held by the directory `dir`, in order.
pub open spec fn rules_in(entries: Seq<WalkedFile>, dir: Seq<char>) -> Seq<WalkedFile>
    decreases entries.len(),
{
    if entries.len() == 0 {
        Seq::empty()
    } else {
        let r = rules_in(entries.drop_last(), dir);
        let e = entries.last();
        if is_rules_entry(e) && e.parent@ == dir {
            r.push(e)
        } else {
            r
        }
    }
}

/// The directories that hold a rules file of `entries`.
pub open spec fn rules_dirs(entries: Seq<WalkedFile>) -> Set<Seq<char>> {
    Set::new(
        |d: Seq<char>|
            exists|i: int|
                0 <= i < entries.len() && is_rules_entry(#[trigger] entries[i]) && entries[i].parent@
                    == d,
    )
}

/// The names without extension of the rules files of `group`.
pub open spec fn stems_of(group: Seq<WalkedFile>) -> Seq<Seq<char>> {
    group.map_values(|e: WalkedFile| rules_file_stem(e.name@)->Some_0)
}

/// The `k`th of `prefixes` is the longest that `name` starts with, the first of them on a tie.
pub open spec fn claims(prefixes: Seq<Seq<char>>, name: Seq<char>, k: int) -> bool {
    &&& 0 <= k < prefixes.len()
    &&& is_prefix(prefixes[k], name)
    &&& forall|m: int|
        0 <= m < prefixes.len() && is_prefix(#[trigger] prefixes[m], name) ==> {
            &&& prefixes[m].len() <= prefixes[k].len()
            &&& m < k ==> prefixes[m].len() < prefixes[k].len()
        }
}

/// Which of `prefixes` a test file named `name` belongs to, if any.
pub open spec fn claim(prefixes: Seq<Seq<char>>, name: Seq<char>) -> Option<int> {
    if exists|k: int| claims(prefixes, name, k) {
        Some(choose|k: int| claims(prefixes, name, k))
    } else {
        None
    }
}

/// At most one prefix claims a name.
pub proof fn lemma_claim_unique(prefixes: Seq<Seq<char>>, name: Seq<char>, k: int)
    requires
        claims(prefixes, name, k),
    ensures
        claim(prefixes, name) == Some(k),
{
    let c = choose|c: int| claims(prefixes, name, c);
    assert(claims(prefixes, name, c));
    if c < k {
        assert(is_prefix(prefixes[c], name));
    } else if k < c {
        assert(is_prefix(prefixes[k], name));
    }
}

/// The rules file a test entry belongs to, as its directory and its place in that directory's
/// group: the rules file beside the entry's `tests` directory that claims its name.
pub open spec fn claimant(entries: Seq<WalkedFile>, e: WalkedFile) -> Option<(Seq<char>, int)> {
    match e.grandparent {
        Some(g) => match claim(stems_of(rules_in(entries, g@)), e.name@) {
            Some(k) => Some((g@, k)),
            None => None,
        },
        None => None,
    }
}

/// The paths of the test entries of `scanned` that the `k`th rules file of `dir` takes, in
/// order; which one takes an entry is decided over all of `entries`.
pub open spec fn claimed_by(
    entries: Seq<WalkedFile>,
    scanned: Seq<WalkedFile>,
    dir: Seq<char>,
    k: int,
) -> Seq<Seq<char>>
    decreases scanned.len(),
{
    if scanned.len() == 0 {
        Seq::empty()
    } else {
        let r = claimed_by(entries, scanned.drop_last(), dir, k);
        let e = scanned.last();
        if is_test_entry(e) && claimant(entries, e) == Some((dir, k)) {
            r.push(e.path@)
        } else {
            r
        }
    }
}

/// The paths of the test entries of `scanned` no rules file of `entries` takes, in order.
pub open spec fn orphans(entries: Seq<WalkedFile>, scanned: Seq<WalkedFile>) -> Seq<Seq<char>>
    decreases scanned.len(),
{
    if scanned.len() == 0 {
        Seq::empty()
    } else {
        let r = orphans(entries, scanned.drop_last());
        let e = scanned.last();
        if is_test_entry(e) && claimant(entries, e) is None {
            r.push(e.path@)
        } else {
            r
        }
    }
}

/// The group `files` holds the rules files of `entries` in `dir`, in order, each with its name
/// without extension.
pub open spec fn group_holds(entries: Seq<WalkedFile>, dir: Seq<char>, files: Seq<GuardFile>) -> bool {
    let g = rules_in(entries, dir);
    &&& files.len() == g.len()
    &&& forall|k: int|
        0 <= k < g.len() ==> {
            &&& (#[trigger] files[k]).prefix@ == rules_file_stem(g[k].name@)->Some_0
            &&& files[k].path@ == g[k].path@
        }
}

/// The directories of `files`, in order.
pub open spec fn dirs_of(files: Seq<(String, Vec<GuardFile>)>) -> Seq<Seq<char>> {
    files.map_values(|f: (String, Vec<GuardFile>)| f.0@)
}

/// `out` is the layout of the walk `entries`: a group for each directory holding rules files, in
/// sorted order, holding its rules files in walk order, each with the test files it takes; and
/// the test files nothing takes.
pub open spec fn laid_out(entries: Seq<WalkedFile>, out: OrderedTestDirectory) -> bool {
    &&& strictly_sorted(dirs_of(out.files@))
    &&& dirs_of(out.files@).to_set() == rules_dirs(entries)
    &&& forall|j: int|
        0 <= j < out.files@.len() ==> {
            let f = #[trigger] out.files@[j];
            &&& group_holds(entries, f.0@, f.1@)
            &&& forall|k: int|
                0 <= k < f.1@.len() ==> views((#[trigger] f.1@[k]).test_files@) == claimed_by(
                    entries,
                    entries,
                    f.0@,
                    k,
                )
        }
    &&& views(out.orphaned_test_files@) == orphans(entries, entries)
}

/// A directory with rules files in it holds one of them.
proof fn lemma_rules_in_dir(entries: Seq<WalkedFile>, dir: Seq<char>)
    ensures
        rules_in(entries, dir).len() > 0 ==> rules_dirs(entries).contains(dir),
        !rules_dirs(entries).contains(dir) ==> rules_in(entries, dir).len() == 0,
    decreases entries.len(),
{
    if entries.len() > 0 {
        let d = entries.drop_last();
        lemma_rules_in_dir(d, dir);
        if rules_in(d, dir).len() > 0 {
            let i = choose|i: int| 0 <= i < d.len() && is_rules_entry(#[trigger] d[i]) && d[i].parent@ == dir;
            assert(entries[i] == d[i]);
        }
        let e = entries.last();
        if is_rules_entry(e) && e.parent@ == dir {
            assert(entries[entries.len() - 1] == e);
        }
    }
}

/// One more entry adds its directory when it is a rules file.
proof fn lemma_rules_dirs_push(entries: Seq<WalkedFile>, e: WalkedFile)
    ensures
        rules_dirs(entries.push(e)) == if is_rules_entry(e) {
            rules_dirs(entries).insert(e.parent@)
        } else {
            rules_dirs(entries)
        },
{
    let n = entries.push(e);
    assert forall|d: Seq<char>| rules_dirs(n).contains(d) <==> (if is_rules_entry(e) {
        rules_dirs(entries).insert(e.parent@)
    } else {
        rules_dirs(entries)
    }).contains(d) by {
        if rules_dirs(n).contains(d) {
            let i = choose|i: int| 0 <= i < n.len() && is_rules_entry(#[trigger] n[i]) && n[i].parent@ == d;
            if i < entries.len() {
                assert(n[i] == entries[i]);
            }
        }
        if rules_dirs(entries).contains(d) {
            let i = choose|i: int| 0 <= i < entries.len() && is_rules_entry(#[trigger] entries[i]) && entries[i].parent@ == d;
            assert(n[i] == entries[i]);
        }
        if is_rules_entry(e) && d == e.parent@ {
            assert(n[entries.len() as int] == e);
        }
    }
    assert(rules_dirs(n) =~= if is_rules_entry(e) {
        rules_dirs(entries).insert(e.parent@)
    } else {
        rules_dirs(entries)
    });
}

/// Every group of `groups` holds the rules files of its directory, with no test files yet.
pub open spec fn groups_hold(
    entries: Seq<WalkedFile>,
    dirs: Seq<String>,
    groups: Seq<Vec<GuardFile>>,
) -> bool {
    &&& groups.len() == dirs.len()
    &&& forall|j: int|
        0 <= j < dirs.len() ==> group_holds(entries, (#[trigger] dirs[j])@, groups[j]@)
}

/// The rules files of `entries`, grouped by directory in sorted order; no group has test files.
fn group_rules_files(entries: &Vec<WalkedFile>) -> (r: (Vec<String>, Vec<Vec<GuardFile>>))
    ensures
        strictly_sorted(views(r.0@)),
        views(r.0@).to_set() == rules_dirs(entries@),
        groups_hold(entries@, r.0@, r.1@),
        forall|j: int, k: int|
            0 <= j < r.1@.len() && 0 <= k < r.1@[j]@.len() ==> (#[trigger] r.1@[j]@[k]).test_files@.len()
                == 0,
{
    let mut dirs: Vec<String> = Vec::new();
    let mut groups: Vec<Vec<GuardFile>> = Vec::new();
    let mut i: usize = 0;
    assert(views(dirs@).to_set() =~= rules_dirs(entries@.take(0)));
    while i < entries.len()
        invariant
            i <= entries@.len(),
            strictly_sorted(views(dirs@)),
            views(dirs@).to_set() == rules_dirs(entries@.take(i as int)),
            groups_hold(entries@.take(i as int), dirs@, groups@),
            forall|j: int, k: int|
                0 <= j < groups@.len() && 0 <= k < groups@[j]@.len() ==> (#[trigger] groups@[j]@[k]).test_files@.len()
                    == 0,
        decreases entries.len() - i,
    {
        let e = &entries[i];
        let ghost p = entries@.take(i as int);
        let ghost n = entries@.take(i + 1);
        assert(n.drop_last() =~= p);
        assert(n.last() == *e);
        assert(n =~= p.push(*e));
        proof {
            lemma_rules_dirs_push(p, *e);
        }
        match rules_file_prefix(e.name.as_str()) {
            None => {
                assert forall|j: int| 0 <= j < dirs@.len() implies group_holds(
                    n,
                    (#[trigger] dirs@[j])@,
                    groups@[j]@,
                ) by {
                    assert(rules_in(n, dirs@[j]@) == rules_in(p, dirs@[j]@));
                }
            },
            Some(prefix) => {
                let gf = GuardFile { prefix, path: e.path.clone(), test_files: Vec::new() };
                let mut j: usize = 0;
                while j < dirs.len() && str_lt(dirs[j].as_str(), e.parent.as_str())
                    invariant
                        j <= dirs@.len(),
                        forall|m: int| 0 <= m < j ==> seq_lt(#[trigger] dirs@[m]@, e.parent@),
                    decreases dirs.len() - j,
                {
                    j += 1;
                }
                if j < dirs.len() && str_eq(dirs[j].as_str(), e.parent.as_str()) {
                    let ghost old_groups = groups@;
                    let mut group = groups.remove(j);
                    group.push(gf);
                    groups.insert(j, group);
                    assert(groups@ =~= old_groups.update(j as int, group));
                    assert(views(dirs@).contains(e.parent@)) by {
                        assert(views(dirs@)[j as int] == e.parent@);
                    }
                    assert(views(dirs@).to_set() =~= rules_dirs(n));
                    assert forall|m: int| 0 <= m < dirs@.len() implies group_holds(
                        n,
                        (#[trigger] dirs@[m])@,
                        groups@[m]@,
                    ) by {
                        if m == j {
                            assert(rules_in(n, dirs@[m]@) == rules_in(p, dirs@[m]@).push(*e));
                        } else {
                            assert(views(dirs@)[m] != views(dirs@)[j as int]) by {
                                if m < j {
                                    lemma_seq_lt_irreflexive(views(dirs@)[m]);
                                } else {
                                    lemma_seq_lt_irreflexive(views(dirs@)[j as int]);
                                }
                            }
                            assert(rules_in(n, dirs@[m]@) == rules_in(p, dirs@[m]@));
                        }
                    }
                } else {
                    proof {
                        if j < dirs@.len() {
                            lemma_seq_lt_total(dirs@[j as int]@, e.parent@);
                        }
                        assert(!views(dirs@).contains(e.parent@)) by {
                            if views(dirs@).contains(e.parent@) {
                                let m = choose|m: int| 0 <= m < views(dirs@).len() && views(dirs@)[m] == e.parent@;
                                if m < j {
                                    assert(seq_lt(dirs@[m]@, e.parent@));
                                    lemma_seq_lt_irreflexive(e.parent@);
                                } else if m == j {
                                } else {
                                    assert(seq_lt(views(dirs@)[j as int], views(dirs@)[m]));
                                    lemma_seq_lt_transitive(e.parent@, views(dirs@)[j as int], e.parent@);
                                    lemma_seq_lt_irreflexive(e.parent@);
                                }
                            }
                        }
                        assert(!rules_dirs(p).contains(e.parent@));
                        lemma_rules_in_dir(p, e.parent@);
                    }
                    let ghost old_dirs = dirs@;
                    let ghost old_groups = groups@;
                    let mut group: Vec<GuardFile> = Vec::new();
                    group.push(gf);
                    dirs.insert(j, e.parent.clone());
                    groups.insert(j, group);
                    assert(views(dirs@) =~= views(old_dirs).insert(j as int, e.parent@));
                    assert(strictly_sorted(views(dirs@))) by {
                        let v = views(dirs@);
                        let o = views(old_dirs);
                        assert forall|a: int, b: int| 0 <= a < b < v.len() implies seq_lt(#[trigger] v[a], #[trigger] v[b]) by {
                            if j < o.len() {
                                lemma_seq_lt_total(o[j as int], e.parent@);
                            }
                            if a < j && b == j {
                                assert(v[a] == o[a]);
                            } else if a < j && b > j {
                                assert(v[a] == o[a] && v[b] == o[b - 1]);
                                if a < b - 1 {
                                    assert(seq_lt(o[a], o[b - 1]));
                                }
                            } else if a == j {
                                assert(v[b] == o[b - 1]);
                                if b - 1 > j {
                                    assert(seq_lt(o[j as int], o[b - 1]));
                                    lemma_seq_lt_transitive(e.parent@, o[j as int], o[b - 1]);
                                }
                            } else if b < j {
                                assert(v[a] == o[a] && v[b] == o[b]);
                            } else {
                                assert(v[a] == o[a - 1] && v[b] == o[b - 1]);
                            }
                        }
                    }
                    assert(views(dirs@).to_set() =~= rules_dirs(n)) by {
                        assert forall|d: Seq<char>| views(dirs@).to_set().contains(d) <==> views(old_dirs).to_set().insert(e.parent@).contains(d) by {
                            if views(dirs@).contains(d) {
                                let m = choose|m: int| 0 <= m < views(dirs@).len() && views(dirs@)[m] == d;
                                if m < j {
                                    assert(views(old_dirs)[m] == d);
                                } else if m > j {
                                    assert(views(old_dirs)[m - 1] == d);
                                }
                            }
                            if views(old_dirs).contains(d) {
                                let m = choose|m: int| 0 <= m < views(old_dirs).len() && views(old_dirs)[m] == d;
                                if m < j {
                                    assert(views(dirs@)[m] == d);
                                } else {
                                    assert(views(dirs@)[m + 1] == d);
                                }
                            }
                            if d == e.parent@ {
                                assert(views(dirs@)[j as int] == d);
                            }
                        }
                    }
                    assert forall|m: int| 0 <= m < dirs@.len() implies group_holds(
                        n,
                        (#[trigger] dirs@[m])@,
                        groups@[m]@,
                    ) by {
                        if m == j {
                            assert(rules_in(n, e.parent@) == rules_in(p, e.parent@).push(*e));
                        } else {
                            let om = if m < j { m } else { m - 1 };
                            assert(dirs@[m] == old_dirs[om]);
                            assert(groups@[m] == old_groups[om]);
                            assert(views(old_dirs)[om] != e.parent@) by {
                                assert(views(old_dirs).contains(views(old_dirs)[om]));
                            }
                            assert(rules_in(n, dirs@[m]@) == rules_in(p, dirs@[m]@));
                        }
                    }
                }
            },
        }
        i += 1;
    }
    assert(entries@.take(i as int) =~= entries@);
    (dirs, groups)
}

/// Where `dir` is among `dirs`, if it is.
fn find_dir(dirs: &Vec<String>, dir: &str) -> (r: Option<usize>)
    ensures
        r matches Some(j) ==> j < dirs@.len() && dirs@[j as int]@ == dir@,
        r is None ==> !views(dirs@).contains(dir@),
{
    let mut j: usize = 0;
    while j < dirs.len()
        invariant
            j <= dirs@.len(),
            forall|m: int| 0 <= m < j ==> dirs@[m]@ != dir@,
        decreases dirs.len() - j,
    {
        if str_eq(dirs[j].as_str(), dir) {
            return Some(j);
        }
        j += 1;
    }
    assert(!views(dirs@).contains(dir@)) by {
        if views(dirs@).contains(dir@) {
            let m = choose|m: int| 0 <= m < views(dirs@).len() && views(dirs@)[m] == dir@;
            assert(dirs@[m]@ == dir@);
        }
    }
    None
}

/// The names without extension of the rules files of `group`.
fn prefixes_of(group: &Vec<GuardFile>) -> (r: Vec<String>)
    ensures
        views(r@) == group@.map_values(|gf: GuardFile| gf.prefix@),
{
    let mut r: Vec<String> = Vec::new();
    let mut k: usize = 0;
    while k < group.len()
        invariant
            k <= group@.len(),
            views(r@) == group@.take(k as int).map_values(|gf: GuardFile| gf.prefix@),
        decreases group.len() - k,
    {
        let ghost before = r@;
        r.push(group[k].prefix.clone());
        assert(views(r@) =~= views(before).push(group@[k as int].prefix@));
        assert(group@.take(k + 1).map_values(|gf: GuardFile| gf.prefix@) =~= group@.take(
            k as int,
        ).map_values(|gf: GuardFile| gf.prefix@).push(group@[k as int].prefix@));
        k += 1;
    }
    assert(group@.take(k as int) =~= group@);
    r
}

/// What each group's rules files took of `scanned`, and what nothing took.
pub open spec fn tests_assigned(
    entries: Seq<WalkedFile>,
    scanned: Seq<WalkedFile>,
    dirs: Seq<String>,
    groups: Seq<Vec<GuardFile>>,
) -> bool {
    forall|j: int, k: int|
        0 <= j < groups.len() && 0 <= k < groups[j]@.len() ==> views(
            (#[trigger] groups[j]@[k]).test_files@,
        ) == claimed_by(entries, scanned, dirs[j]@, k)
}

impl OrderedTestDirectory {
    /// The layout of a walk over a test directory (see [`laid_out`]).
    pub fn from_walk(entries: &Vec<WalkedFile>) -> (r: OrderedTestDirectory)
        ensures
            laid_out(entries@, r),
    {
        let (dirs, mut groups) = group_rules_files(entries);
        let mut orphaned: Vec<String> = Vec::new();
        let mut i: usize = 0;
        assert(tests_assigned(entries@, entries@.take(0), dirs@, groups@)) by {
            assert forall|j: int, k: int|
                0 <= j < groups@.len() && 0 <= k < groups@[j]@.len() implies views(
                (#[trigger] groups@[j]@[k]).test_files@,
            ) == claimed_by(entries@, entries@.take(0), dirs@[j]@, k) by {
                assert(groups@[j]@[k].test_files@.len() == 0);
                assert(views(groups@[j]@[k].test_files@) =~= Seq::<Seq<char>>::empty());
            }
        }
        assert(views(orphaned@) =~= orphans(entries@, entries@.take(0)));
        while i < entries.len()
            invariant
                i <= entries@.len(),
                strictly_sorted(views(dirs@)),
                views(dirs@).to_set() == rules_dirs(entries@),
                groups_hold(entries@, dirs@, groups@),
                tests_assigned(entries@, entries@.take(i as int), dirs@, groups@),
                views(orphaned@) == orphans(entries@, entries@.take(i as int)),
            decreases entries.len() - i,
        {
            let e = &entries[i];
            let ghost p = entries@.take(i as int);
            let ghost n = entries@.take(i + 1);
            assert(n.drop_last() =~= p);
            assert(n.last() == *e);
            let is_rules = match rules_file_prefix(e.name.as_str()) {
                Some(_) => true,
                None => false,
            };
            if !is_rules && is_test_file_name(e.name.as_str()) && e.in_tests_dir {
                let mut target: Option<(usize, usize)> = None;
                if let Some(g) = &e.grandparent {
                    match find_dir(&dirs, g.as_str()) {
                        Some(j) => {
                            let prefixes = prefixes_of(&groups[j]);
                            proof {
                                let grp = rules_in(entries@, g@);
                                assert(group_holds(entries@, dirs@[j as int]@, groups@[j as int]@));
                                assert(views(prefixes@) =~= stems_of(grp));
                            }
                            match claiming_rules_file(&prefixes, e.name.as_str()) {
                                Some(k) => {
                                    proof {
                                        lemma_claim_unique(views(prefixes@), e.name@, k as int);
                                    }
                                    target = Some((j, k));
                                },
                                None => {
                                    assert(claim(views(prefixes@), e.name@) is None) by {
                                        if exists|k: int| claims(views(prefixes@), e.name@, k) {
                                            let k = choose|k: int| claims(views(prefixes@), e.name@, k);
                                            assert(is_prefix(prefixes@[k]@, e.name@));
                                        }
                                    }
                                },
                            }
                        },
                        None => {
                            proof {
                                assert(!rules_dirs(entries@).contains(g@));
                                lemma_rules_in_dir(entries@, g@);
                                assert(claim(stems_of(rules_in(entries@, g@)), e.name@) is None);
                            }
                        },
                    }
                }
                match target {
                    Some((j, k)) => {
                        assert(claimant(entries@, *e) == Some((dirs@[j as int]@, k as int)));
                        let ghost old_groups = groups@;
                        let mut group = groups.remove(j);
                        let ghost old_group = group@;
                        let mut gf = group.remove(k);
                        let ghost old_tests = gf.test_files@;
                        gf.test_files.push(e.path.clone());
                        assert(views(gf.test_files@) =~= views(old_tests).push(e.path@));
                        group.insert(k, gf);
                        assert(group@ =~= old_group.update(k as int, gf));
                        groups.insert(j, group);
                        assert(groups@ =~= old_groups.update(j as int, group));
                        assert forall|m: int| 0 <= m < dirs@.len() implies group_holds(
                            entries@,
                            (#[trigger] dirs@[m])@,
                            groups@[m]@,
                        ) by {
                            assert(group_holds(entries@, dirs@[m]@, old_groups[m]@));
                        }
                        assert forall|a: int, b: int|
                            0 <= a < groups@.len() && 0 <= b < groups@[a]@.len() implies views(
                            (#[trigger] groups@[a]@[b]).test_files@,
                        ) == claimed_by(entries@, n, dirs@[a]@, b) by {
                            if a == j && b == k {
                            } else {
                                assert(groups@[a]@[b] == old_groups[a]@[b]);
                                if a != j {
                                    assert(views(dirs@)[a] != views(dirs@)[j as int]) by {
                                        if a < j {
                                            lemma_seq_lt_irreflexive(views(dirs@)[a]);
                                        } else {
                                            lemma_seq_lt_irreflexive(views(dirs@)[j as int]);
                                        }
                                    }
                                }
                            }
                        }
                    },
                    None => {
                        assert(claimant(entries@, *e) is None);
                        orphaned.push(e.path.clone());
                        assert forall|a: int, b: int|
                            0 <= a < groups@.len() && 0 <= b < groups@[a]@.len() implies views(
                            (#[trigger] groups@[a]@[b]).test_files@,
                        ) == claimed_by(entries@, n, dirs@[a]@, b) by {
                        }
                    },
                }
            } else {
                assert(!is_test_entry(*e));
                assert forall|a: int, b: int|
                    0 <= a < groups@.len() && 0 <= b < groups@[a]@.len() implies views(
                    (#[trigger] groups@[a]@[b]).test_files@,
                ) == claimed_by(entries@, n, dirs@[a]@, b) by {
                }
            }
            i += 1;
        }
        assert(entries@.take(i as int) =~= entries@);
        let ghost all_dirs = dirs@;
        let ghost all_groups = groups@;
        assert(all_dirs.len() == dirs.len());
        let mut rest_dirs = dirs;
        let mut files: Vec<(String, Vec<GuardFile>)> = Vec::new();
        let mut m: usize = 0;
        while rest_dirs.len() > 0
            invariant
                all_groups.len() == all_dirs.len(),
                all_dirs.len() <= usize::MAX,
                m <= all_dirs.len(),
                rest_dirs@ == all_dirs.skip(m as int),
                groups@ == all_groups.skip(m as int),
                files@.len() == m,
                forall|t: int| 0 <= t < m ==> (#[trigger] files@[t]).0 == all_dirs[t] && files@[t].1 == all_groups[t],
            decreases rest_dirs.len(),
        {
            assert(m < all_dirs.len());
            let d = rest_dirs.remove(0);
            let g = groups.remove(0);
            files.push((d, g));
            assert(rest_dirs@ =~= all_dirs.skip(m + 1));
            assert(groups@ =~= all_groups.skip(m + 1));
            m += 1;
        }
        assert(m == all_dirs.len());
        let r = OrderedTestDirectory { files, orphaned_test_files: orphaned };
        assert(dirs_of(r.files@) =~= views(all_dirs));
        assert forall|j: int| 0 <= j < r.files@.len() implies {
            let f = #[trigger] r.files@[j];
            &&& group_holds(entries@, f.0@, f.1@)
            &&& forall|k: int|
                0 <= k < f.1@.len() ==> views((#[trigger] f.1@[k]).test_files@) == claimed_by(
                    entries@,
                    entries@,
                    f.0@,
                    k,
                )
        } by {
            assert(r.files@[j].0 == all_dirs[j]);
            assert(r.files@[j].1 == all_groups[j]);
            assert(group_holds(entries@, all_dirs[j]@, all_groups[j]@));
        }
        r
    }
}

/// A test entry taken by the `k`th rules file of `d` is among what that rules file took.
proof fn lemma_claimed_by_contains(entries: Seq<WalkedFile>, scanned: Seq<WalkedFile>, i: int, d: Seq<char>, k: int)
    requires
        0 <= i < scanned.len(),
        is_test_entry(scanned[i]),
        claimant(entries, scanned[i]) == Some((d, k)),
    ensures
        claimed_by(entries, scanned, d, k).contains(scanned[i].path@),
    decreases scanned.len(),
{
    let r = claimed_by(entries, scanned.drop_last(), d, k);
    if i < scanned.len() - 1 {
        assert(scanned.drop_last()[i] == scanned[i]);
        lemma_claimed_by_contains(entries, scanned.drop_last(), i, d, k);
        let m = choose|m: int| 0 <= m < r.len() && r[m] == scanned[i].path@;
        if is_test_entry(scanned.last()) && claimant(entries, scanned.last()) == Some((d, k)) {
            assert(r.push(scanned.last().path@)[m] == scanned[i].path@);
        }
    } else {
        assert(scanned.last() == scanned[i]);
        assert(r.push(scanned[i].path@)[r.len() as int] == scanned[i].path@);
    }
}

/// A test entry taken by no rules file is among the orphans.
proof fn lemma_orphans_contains(entries: Seq<WalkedFile>, scanned: Seq<WalkedFile>, i: int)
    requires
        0 <= i < scanned.len(),
        is_test_entry(scanned[i]),
        claimant(entries, scanned[i]) is None,
    ensures
        orphans(entries, scanned).contains(scanned[i].path@),
    decreases scanned.len(),
{
    let r = orphans(entries, scanned.drop_last());
    if i < scanned.len() - 1 {
        assert(scanned.drop_last()[i] == scanned[i]);
        lemma_orphans_contains(entries, scanned.drop_last(), i);
        let m = choose|m: int| 0 <= m < r.len() && r[m] == scanned[i].path@;
        if is_test_entry(scanned.last()) && claimant(entries, scanned.last()) is None {
            assert(r.push(scanned.last().path@)[m] == scanned[i].path@);
        }
    } else {
        assert(scanned.last() == scanned[i]);
        assert(r.push(scanned[i].path@)[r.len() as int] == scanned[i].path@);
    }
}

/// Every test file in a `tests` directory is placed: one no rules file claims is reported as an
/// orphan, and one a rules file claims is among the test files of that rules file, which the
/// layout holds.
pub proof fn law_each_test_file_is_placed(entries: Seq<WalkedFile>, out: OrderedTestDirectory, i: int)
    requires
        laid_out(entries, out),
        0 <= i < entries.len(),
        is_test_entry(entries[i]),
    ensures
        claimant(entries, entries[i]) is None ==> views(out.orphaned_test_files@).contains(
            entries[i].path@,
        ),
        claimant(entries, entries[i]) matches Some((d, k)) ==> exists|j: int|
            0 <= j < out.files@.len() && (#[trigger] out.files@[j]).0@ == d && k
                < out.files@[j].1@.len() && views(out.files@[j].1@[k].test_files@).contains(
                entries[i].path@,
            ),
{
    let e = entries[i];
    match claimant(entries, e) {
        None => {
            lemma_orphans_contains(entries, entries, i);
        },
        Some((d, k)) => {
            let g = e.grandparent->Some_0@;
            assert(d == g);
            let stems = stems_of(rules_in(entries, g));
            assert(claim(stems, e.name@) == Some(k));
            assert(claims(stems, e.name@, choose|c: int| claims(stems, e.name@, c)));
            assert(0 <= k < stems.len());
            lemma_rules_in_dir(entries, g);
            assert(rules_dirs(entries).contains(g));
            assert(dirs_of(out.files@).to_set().contains(g));
            let j = choose|j: int| 0 <= j < dirs_of(out.files@).len() && dirs_of(out.files@)[j] == g;
            assert(out.files@[j].0@ == g);
            assert(group_holds(entries, out.files@[j].0@, out.files@[j].1@));
            assert(k < out.files@[j].1@.len());
            lemma_claimed_by_contains(entries, entries, i, d, k);
            assert(views(out.files@[j].1@[k].test_files@) == claimed_by(entries, entries, d, k));
        },
    }
}

} // verus!
