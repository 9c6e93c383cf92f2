//! Template packages: templates installed from git repositories into
//! `~/.forge/packages`, recorded in `packages.json`. Cloning, copying and
//! file access are the caller's part; the decisions are made here.
use crate::casing::join_spec;
use crate::order::{lex_lt, sort_by_key, sort_spec, sorted_by_key, Keyed};
use crate::paths::{join_path, join_spec as path_join};
use crate::strmap::{keys_sorted, map_of, StrMap};
use crate::text::{str_eq, views};
use vstd::prelude::*;

verus! {

/// Where an installed template came from, and its checksum when installed.
#[derive(Debug)]
pub struct PackageRecord {
    pub repo: String,
    pub ref_name: String,
    pub installed_at: String,
    pub checksum: String,
}

impl PackageRecord {
    /// A copy of the record.
    pub fn copy(&self) -> (r: Self)
        ensures
            r == *self,
    {
        PackageRecord {
            repo: self.repo.clone(),
            ref_name: self.ref_name.clone(),
            installed_at: self.installed_at.clone(),
            checksum: self.checksum.clone(),
        }
    }
}

/// The contents of `packages.json`: installed templates by name.
pub struct PackageIndex {
    pub version: u32,
    pub packages: StrMap<PackageRecord>,
}

impl PackageIndex {
    /// The index of nothing installed.
    pub fn empty() -> (i: Self)
        ensures
            i.version == 1,
            i.packages.view() == Map::<Seq<char>, PackageRecord>::empty(),
    {
        PackageIndex { version: 1, packages: StrMap::new() }
    }

    /// The index as read from `packages.json` (later entries for a name
    /// replace earlier ones).
    pub fn from_entries(version: u32, entries: Vec<(String, PackageRecord)>) -> (i: Self)
        ensures
            i.version == version,
            i.packages.view() == entries_map(entries@),
    {
        let mut m: StrMap<PackageRecord> = StrMap::new();
        let mut k: usize = 0;
        assert(entries@.take(0) =~= Seq::<(String, PackageRecord)>::empty());
        assert(m.view() =~= entries_map(entries@.take(0)));
        while k < entries.len()
            invariant
                k <= entries.len(),
                m.view() == entries_map(entries@.take(k as int)),
            decreases entries.len() - k,
        {
            assert(entries@.take(k + 1).drop_last() =~= entries@.take(k as int));
            m.insert(entries[k].0.clone(), entries[k].1.copy());
            k = k + 1;
        }
        assert(entries@.take(entries@.len() as int) =~= entries@);
        PackageIndex { version, packages: m }
    }
}

/// The map that entries describe, later entries replacing earlier ones.
pub open spec fn entries_map(s: Seq<(String, PackageRecord)>) -> Map<Seq<char>, PackageRecord>
    decreases s.len(),
{
    if s.len() == 0 {
        Map::empty()
    } else {
        entries_map(s.drop_last()).insert(s.last().0@, s.last().1)
    }
}

impl Default for PackageIndex {
    fn default() -> (i: Self)
        ensures
            i.version == 1,
            i.packages.view() == Map::<Seq<char>, PackageRecord>::empty(),
    {
        PackageIndex::empty()
    }
}

/// A template just installed.
#[derive(Debug, Clone)]
pub struct InstalledTemplate {
    pub name: String,
    pub destination: String,
    pub checksum: String,
}

impl Keyed for InstalledTemplate {
    open spec fn key_of(&self) -> Seq<char> {
        self.name@
    }

    fn key(&self) -> (k: &str) {
        self.name.as_str()
    }
}

/// A template a repository offers.
#[derive(Debug, Clone)]
pub struct ProbedTemplate {
    pub name: String,
    pub path: String,
    pub full_path: String,
    pub version: String,
    pub description: String,
}

impl Keyed for ProbedTemplate {
    open spec fn key_of(&self) -> Seq<char> {
        self.name@
    }

    fn key(&self) -> (k: &str) {
        self.name.as_str()
    }
}

/// What a repository offers.
#[derive(Debug, Clone)]
pub struct ProbedPackage {
    pub repo_root: String,
    pub templates: Vec<ProbedTemplate>,
}

/// A repository's offer, templates in name order.
pub fn probed_package(repo_root: &str, templates: Vec<ProbedTemplate>) -> (p: ProbedPackage)
    ensures
        p.repo_root@ == repo_root@,
        p.templates@ == sort_spec(templates@),
        sorted_by_key(p.templates@),
{
    ProbedPackage { repo_root: repo_root.to_owned(), templates: sort_by_key(templates) }
}

/// The message of an index entry whose directory is missing.
pub fn missing_directory_message(name: &str, full_path: &str) -> (m: String)
    ensures
        m@ == "template '"@ + name@ + "' points to missing directory '"@ + full_path@ + "'"@,
{
    let mut m = "template '".to_owned();
    m.append(name);
    m.append("' points to missing directory '");
    m.append(full_path);
    m.append("'");
    m
}

/// The names of the templates on offer.
pub open spec fn probed_names(t: Seq<ProbedTemplate>) -> Seq<Seq<char>> {
    t.map_values(|p: ProbedTemplate| p.name@)
}

/// The requested names that nothing on offer bears.
pub open spec fn unknown_names(names: Seq<Seq<char>>, offered: Seq<Seq<char>>) -> Set<Seq<char>> {
    Set::new(|n: Seq<char>| names.contains(n) && !offered.contains(n))
}

/// Strictly increasing names.
pub open spec fn increasing(l: Seq<Seq<char>>) -> bool {
    forall|i: int, j: int| 0 <= i < j < l.len() ==> lex_lt(#[trigger] l[i], #[trigger] l[j])
}

/// The templates on offer that were asked for, in offer order.
pub open spec fn selected(t: Seq<ProbedTemplate>, names: Seq<Seq<char>>) -> Seq<ProbedTemplate> {
    t.filter(wanted(names))
}

/// Whether a template on offer was asked for.
pub open spec fn wanted(names: Seq<Seq<char>>) -> spec_fn(ProbedTemplate) -> bool {
    |p: ProbedTemplate| names.contains(p.name@)
}

/// Whether installing `p` from `repo` conflicts with the index: the name is
/// installed from another repository.
pub open spec fn conflicts(index: Map<Seq<char>, PackageRecord>, repo: Seq<char>, name: Seq<char>) -> bool {
    index.contains_key(name) && index[name].repo@ != repo
}

/// What an install does: the templates to copy, in order, and the conflict
/// that stops it after them, if any (nothing is recorded then).
pub struct InstallPlan {
    pub install: Vec<ProbedTemplate>,
    pub conflict: Option<String>,
}

/// The selected templates up to the first conflict, and that conflict.
pub open spec fn plan_spec(sel: Seq<ProbedTemplate>, index: Map<Seq<char>, PackageRecord>, repo: Seq<char>) -> (Seq<ProbedTemplate>, Option<Seq<char>>) {
    if exists|c: int| 0 <= c < sel.len() && conflicts(index, repo, #[trigger] sel[c].name@) {
        let c = choose|c: int|
            0 <= c < sel.len() && conflicts(index, repo, #[trigger] sel[c].name@) && forall|d: int|
                0 <= d < c ==> !conflicts(index, repo, #[trigger] sel[d].name@);
        (
            sel.take(c),
            Some(
                "template '"@ + sel[c].name@ + "' is already installed from '"@
                    + index[sel[c].name@].repo@ + "'"@,
            ),
        )
    } else {
        (sel, None)
    }
}

fn copy_probed(t: &ProbedTemplate) -> (r: ProbedTemplate)
    ensures
        r == *t,
{
    ProbedTemplate {
        name: t.name.clone(),
        path: t.path.clone(),
        full_path: t.full_path.clone(),
        version: t.version.clone(),
        description: t.description.clone(),
    }
}

/// Joins names with `, `.
fn join_names(l: &Vec<String>) -> (out: String)
    ensures
        out@ == join_spec(views(l@), ", "@),
{
    let mut out = String::new();
    let mut i: usize = 0;
    while i < l.len()
        invariant
            i <= l.len(),
            out@ == join_spec(views(l@).take(i as int), ", "@),
        decreases l.len() - i,
    {
        assert(views(l@).take(i + 1).drop_last() =~= views(l@).take(i as int));
        assert(views(l@).take(i + 1).last() == l@[i as int]@);
        if i > 0 {
            out.append(", ");
        } else {
            assert(views(l@).take(1) =~= seq![l@[0]@]);
        }
        out.append(l[i].as_str());
        i = i + 1;
    }
    assert(views(l@).take(l@.len() as int) =~= views(l@));
    out
}

/// The manager of `~/.forge/packages` and `packages.json`.
pub struct PackageManager {
    pub forge_root: String,
    pub packages_root: String,
    pub index_path: String,
}

impl PackageManager {
    /// The manager under the user's home (`None` when `HOME` is not set).
    pub fn global(home: Option<&str>) -> (res: Result<PackageManager, String>)
        ensures
            home is None ==> (res matches Err(e) && e@ == "HOME is not set"@),
            home matches Some(h) ==> (res matches Ok(m) && m.forge_root@ == path_join(h@, ".forge"@)
                && m.packages_root@ == path_join(m.forge_root@, "packages"@) && m.index_path@
                == path_join(m.forge_root@, "packages.json"@)),
    {
        match home {
            None => Err("HOME is not set".to_owned()),
            Some(h) => {
                let forge_root = join_path(h, ".forge");
                let packages_root = join_path(forge_root.as_str(), "packages");
                let index_path = join_path(forge_root.as_str(), "packages.json");
                Ok(PackageManager { forge_root, packages_root, index_path })
            },
        }
    }

    /// Where a template is installed.
    pub fn destination(&self, name: &str) -> (p: String)
        ensures
            p@ == path_join(self.packages_root@, name@),
    {
        join_path(self.packages_root.as_str(), name)
    }

    /// The installed templates in name order.
    pub fn list(&self, index: &PackageIndex) -> (out: Vec<(String, PackageRecord)>)
        ensures
            keys_sorted(out@),
            map_of(out@) == index.packages.view(),
    {
        let entries = index.packages.entries();
        let mut out: Vec<(String, PackageRecord)> = Vec::new();
        let mut i: usize = 0;
        while i < entries.len()
            invariant
                i <= entries.len(),
                out@ == entries@.take(i as int),
            decreases entries.len() - i,
        {
            out.push((entries[i].0.clone(), entries[i].1.copy()));
            assert(out@ =~= entries@.take(i + 1));
            i = i + 1;
        }
        assert(entries@.take(entries@.len() as int) =~= entries@);
        out
    }

    /// Decides an install of the templates `names` from `repo`, offered as
    /// `probed`: the selection must be non-empty and name only offered
    /// templates; templates installed from another repository stop it.
    #[verifier::loop_isolation(false)]
    pub fn plan_install(
        &self,
        repo: &str,
        probed: &ProbedPackage,
        names: &Vec<String>,
        index: &PackageIndex,
    ) -> (res: Result<InstallPlan, String>)
        ensures
            names@.len() == 0 ==> (res matches Err(e) && e@ == "template selection cannot be empty"@),
            names@.len() > 0 && !unknown_names(views(names@), probed_names(probed.templates@)).is_empty()
                ==> (res matches Err(e) && exists|l: Seq<Seq<char>>|
                increasing(l) && l.to_set() == unknown_names(
                    views(names@),
                    probed_names(probed.templates@),
                ) && e@ == "unknown template selection: "@ + join_spec(l, ", "@)),
            names@.len() > 0 && unknown_names(views(names@), probed_names(probed.templates@)).is_empty()
                ==> (res matches Ok(p) && (p.install@, match p.conflict {
                Some(c) => Some(c@),
                None => None,
            }) == plan_spec(
                selected(probed.templates@, views(names@)),
                index.packages.view(),
                repo@,
            )),
    {
        if names.len() == 0 {
            return Err("template selection cannot be empty".to_owned());
        }
        let ghost nv = views(names@);
        let ghost offered = probed_names(probed.templates@);
        // The unknown names, sorted and without repeats.
        let mut unknown: StrMap<bool> = StrMap::new();
        let mut i: usize = 0;
        while i < names.len()
            invariant
                i <= names.len(),
                nv == views(names@),
                forall|n: Seq<char>| #[trigger]
                    unknown.view().contains_key(n) <==> (nv.take(i as int).contains(n)
                        && !offered.contains(n)),
            decreases names.len() - i,
        {
            let n = names[i].as_str();
            let mut found = false;
            let mut k: usize = 0;
            while k < probed.templates.len()
                invariant
                    k <= probed.templates.len(),
                    found <==> exists|j: int| 0 <= j < k && offered[j] == n@,
                decreases probed.templates.len() - k,
            {
                assert(offered[k as int] == probed.templates@[k as int].name@);
                if str_eq(probed.templates[k].name.as_str(), n) {
                    found = true;
                }
                k = k + 1;
            }
            assert(nv[i as int] == n@);
            assert(nv.take(i + 1) =~= nv.take(i as int).push(n@));
            if !found {
                unknown.insert(n.to_owned(), true);
            }
            assert forall|x: Seq<char>| #[trigger] unknown.view().contains_key(x) <==> (nv.take(
                i + 1,
            ).contains(x) && !offered.contains(x)) by {
                if nv.take(i + 1).contains(x) && x != n@ {
                    let j = choose|j: int| 0 <= j < i + 1 && #[trigger] nv.take(i + 1)[j] == x;
                    assert(nv.take(i as int)[j] == x);
                }
                if nv.take(i as int).contains(x) {
                    let j = choose|j: int| 0 <= j < i && #[trigger] nv.take(i as int)[j] == x;
                    assert(nv.take(i + 1)[j] == x);
                }
                if x == n@ {
                    assert(nv.take(i + 1)[i as int] == x);
                    if found {
                        let j = choose|j: int| 0 <= j < probed.templates@.len() && offered[j] == n@;
                        assert(offered.contains(n@));
                    } else {
                        if offered.contains(x) {
                            let j = choose|j: int| 0 <= j < offered.len() && offered[j] == x;
                            assert(false);
                        }
                    }
                }
            }
            i = i + 1;
        }
        assert(nv.take(names@.len() as int) =~= nv);
        let entries = unknown.entries();
        if entries.len() > 0 {
            proof {
                crate::strmap::lemma_entry(entries@, 0);
                assert(unknown_names(nv, offered).contains(entries@[0].0@));
            }
            let mut l: Vec<String> = Vec::new();
            let mut k: usize = 0;
            while k < entries.len()
                invariant
                    k <= entries.len(),
                    views(l@) == entries@.take(k as int).map_values(|e: (String, bool)| e.0@),
                decreases entries.len() - k,
            {
                let ghost before = views(l@);
                l.push(entries[k].0.clone());
                assert(views(l@) =~= before.push(entries@[k as int].0@));
                assert(entries@.take(k + 1).map_values(|e: (String, bool)| e.0@) =~= entries@.take(
                    k as int,
                ).map_values(|e: (String, bool)| e.0@).push(entries@[k as int].0@));
                k = k + 1;
            }
            assert(entries@.take(entries@.len() as int) =~= entries@);
            let ghost lv = views(l@);
            assert(increasing(lv)) by {
                assert forall|a: int, b: int| 0 <= a < b < lv.len() implies lex_lt(
                    #[trigger] lv[a],
                    #[trigger] lv[b],
                ) by {
                    assert(lv[a] == entries@[a].0@ && lv[b] == entries@[b].0@);
                }
            }
            assert(lv.to_set() =~= unknown_names(nv, offered)) by {
                assert forall|x: Seq<char>| lv.to_set().contains(x) == unknown_names(
                    nv,
                    offered,
                ).contains(x) by {
                    if lv.to_set().contains(x) {
                        let a = choose|a: int| 0 <= a < lv.len() && lv[a] == x;
                        assert(lv[a] == entries@[a].0@);
                        crate::strmap::lemma_entry(entries@, a);
                    }
                    if unknown_names(nv, offered).contains(x) {
                        assert(unknown.view().contains_key(x));
                        let a = choose|a: int| 0 <= a < entries@.len() && #[trigger] entries@[a].0@
                            == x;
                        assert(lv[a] == x);
                    }
                }
            }
            let mut m = "unknown template selection: ".to_owned();
            let joined = join_names(&l);
            m.append(joined.as_str());
            return Err(m);
        }
        assert(unknown_names(nv, offered) =~= Set::<Seq<char>>::empty()) by {
            if exists|x: Seq<char>| unknown_names(nv, offered).contains(x) {
                let x = choose|x: Seq<char>| unknown_names(nv, offered).contains(x);
                assert(unknown.view().contains_key(x));
                let a = choose|a: int| 0 <= a < entries@.len() && #[trigger] entries@[a].0@ == x;
            }
        }
        // The selected templates, up to the first conflict.
        let ghost sel = selected(probed.templates@, nv);
        let ghost f = wanted(nv);
        let mut install: Vec<ProbedTemplate> = Vec::new();
        let mut t: usize = 0;
        assert(probed.templates@.take(0).filter(f) =~= Seq::<ProbedTemplate>::empty());
        while t < probed.templates.len()
            invariant
                t <= probed.templates.len(),
                install@ == probed.templates@.take(t as int).filter(f),
                forall|d: int|
                    0 <= d < install@.len() ==> !conflicts(
                        index.packages.view(),
                        repo@,
                        #[trigger] install@[d].name@,
                    ),
            decreases probed.templates.len() - t,
        {
            let p = &probed.templates[t];
            assert(probed.templates@.take(t + 1).drop_last() =~= probed.templates@.take(t as int));
            reveal(Seq::filter);
            let wanted = crate::text::contains_str(names, p.name.as_str());
            if wanted {
                assert(f(*p));
                match index.packages.get(p.name.as_str()) {
                    Some(existing) => {
                        if !str_eq(existing.repo.as_str(), repo) {
                            let mut m = "template '".to_owned();
                            m.append(p.name.as_str());
                            m.append("' is already installed from '");
                            m.append(existing.repo.as_str());
                            m.append("'");
                            proof {
                                lemma_filter_prefix(probed.templates@, f, t as int);
                                let k = install@.len() as int;
                                assert(sel.take(k) == install@);
                                assert(sel[k] == *p);
                                assert forall|d: int| 0 <= d < k implies !conflicts(
                                    index.packages.view(),
                                    repo@,
                                    #[trigger] sel[d].name@,
                                ) by {
                                    assert(sel.take(k)[d] == sel[d]);
                                    assert(install@[d] == sel[d]);
                                }
                                lemma_plan_conflict(
                                    sel,
                                    index.packages.view(),
                                    repo@,
                                    install@.len() as int,
                                );
                            }
                            return Ok(InstallPlan { install, conflict: Some(m) });
                        }
                    },
                    None => {},
                }
                install.push(copy_probed(p));
            } else {
                assert(!f(*p));
            }
            t = t + 1;
        }
        assert(probed.templates@.take(probed.templates@.len() as int) =~= probed.templates@);
        proof {
            if exists|c: int| 0 <= c < sel.len() && conflicts(
                index.packages.view(),
                repo@,
                #[trigger] sel[c].name@,
            ) {
                let c = choose|c: int|
                    0 <= c < sel.len() && conflicts(
                        index.packages.view(),
                        repo@,
                        #[trigger] sel[c].name@,
                    );
                assert(install@[c] == sel[c]);
            }
        }
        Ok(InstallPlan { install, conflict: None })
    }

    /// Records an installed template.
    pub fn record_install(
        index: &mut PackageIndex,
        name: &str,
        repo: &str,
        installed_at: &str,
        checksum: &str,
    )
        ensures
            final(index).version == old(index).version,
            final(index).packages.view() == old(index).packages.view().insert(
                name@,
                final(index).packages.view()[name@],
            ),
            final(index).packages.view()[name@].repo@ == repo@,
            final(index).packages.view()[name@].ref_name@ == "main"@,
            final(index).packages.view()[name@].installed_at@ == installed_at@,
            final(index).packages.view()[name@].checksum@ == checksum@,
    {
        let record = PackageRecord {
            repo: repo.to_owned(),
            ref_name: "main".to_owned(),
            installed_at: installed_at.to_owned(),
            checksum: checksum.to_owned(),
        };
        index.packages.insert(name.to_owned(), record);
    }

    /// The installed templates in name order.
    pub fn sort_installed(installed: Vec<InstalledTemplate>) -> (out: Vec<InstalledTemplate>)
        ensures
            out@ == sort_spec(installed@),
            sorted_by_key(out@),
    {
        sort_by_key(installed)
    }

    /// Removes the named templates from the index; the removed names, in
    /// name order (the caller then deletes their directories and saves).
    pub fn remove_templates(&self, index: &mut PackageIndex, names: &Vec<String>) -> (removed: Vec<
        String,
    >)
        ensures
            final(index).version == old(index).version,
            final(index).packages.view() == remove_fold(old(index).packages.view(), views(names@)).0,
            increasing(views(removed@)),
            views(removed@).to_set() == remove_fold(old(index).packages.view(), views(names@)).1.to_set(),
    {
        let mut gone: StrMap<bool> = StrMap::new();
        let ghost start = index.packages.view();
        let mut i: usize = 0;
        assert(views(names@).take(0) =~= Seq::<Seq<char>>::empty());
        while i < names.len()
            invariant
                i <= names.len(),
                index.version == old(index).version,
                start == old(index).packages.view(),
                index.packages.view() == remove_fold(start, views(names@).take(i as int)).0,
                forall|x: Seq<char>| #[trigger] gone.view().contains_key(x) <==> remove_fold(
                    start,
                    views(names@).take(i as int),
                ).1.contains(x),
            decreases names.len() - i,
        {
            assert(views(names@).take(i + 1).drop_last() =~= views(names@).take(i as int));
            assert(views(names@).take(i + 1).last() == names@[i as int]@);
            let ghost r0 = remove_fold(start, views(names@).take(i as int)).1;
            let r = index.packages.remove(names[i].as_str());
            if r.is_some() {
                gone.insert(names[i].clone(), true);
                assert forall|x: Seq<char>| #[trigger] gone.view().contains_key(x) <==> r0.push(
                    names@[i as int]@,
                ).contains(x) by {
                    if r0.contains(x) {
                        let j = choose|j: int| 0 <= j < r0.len() && r0[j] == x;
                        assert(r0.push(names@[i as int]@)[j] == x);
                    }
                    if r0.push(names@[i as int]@).contains(x) && x != names@[i as int]@ {
                        let j = choose|j: int| 0 <= j < r0.len() + 1 && r0.push(names@[i as int]@)[j] == x;
                        assert(r0[j] == x);
                    }
                    if x == names@[i as int]@ {
                        assert(r0.push(names@[i as int]@)[r0.len() as int] == x);
                    }
                }
            } else {
                assert(index.packages.view() =~= remove_fold(start, views(names@).take(i + 1)).0);
            }
            i = i + 1;
        }
        assert(views(names@).take(names@.len() as int) =~= views(names@));
        let ghost gv = gone.view();
        let entries = gone.into_entries();
        let mut out: Vec<String> = Vec::new();
        let mut k: usize = 0;
        while k < entries.len()
            invariant
                k <= entries.len(),
                views(out@) == entries@.take(k as int).map_values(|e: (String, bool)| e.0@),
            decreases entries.len() - k,
        {
            let ghost before = views(out@);
            out.push(entries[k].0.clone());
            assert(views(out@) =~= before.push(entries@[k as int].0@));
            assert(entries@.take(k + 1).map_values(|e: (String, bool)| e.0@) =~= entries@.take(
                k as int,
            ).map_values(|e: (String, bool)| e.0@).push(entries@[k as int].0@));
            k = k + 1;
        }
        assert(entries@.take(entries@.len() as int) =~= entries@);
        let ghost ov = views(out@);
        assert(increasing(ov)) by {
            assert forall|a: int, b: int| 0 <= a < b < ov.len() implies lex_lt(
                #[trigger] ov[a],
                #[trigger] ov[b],
            ) by {
                assert(ov[a] == entries@[a].0@ && ov[b] == entries@[b].0@);
            }
        }
        let ghost rs = remove_fold(start, views(names@)).1;
        assert(ov.to_set() =~= rs.to_set()) by {
            assert forall|x: Seq<char>| ov.to_set().contains(x) == rs.to_set().contains(x) by {
                if ov.to_set().contains(x) {
                    let a = choose|a: int| 0 <= a < ov.len() && ov[a] == x;
                    assert(ov[a] == entries@[a].0@);
                    crate::strmap::lemma_entry(entries@, a);
                }
                if rs.to_set().contains(x) {
                    assert(rs.contains(x));
                    assert(gv.contains_key(x));
                    assert(map_of(entries@).contains_key(x));
                    let a = choose|a: int| 0 <= a < entries@.len() && #[trigger] entries@[a].0@ == x;
                    assert(ov[a] == x);
                }
            }
        }
        out
    }

    /// Removes every installed template; the removed names in name order.
    pub fn remove_all(&self, index: &mut PackageIndex) -> (removed: Vec<String>)
        ensures
            final(index).packages.view() == Map::<Seq<char>, PackageRecord>::empty(),
            views(removed@).to_set() == old(index).packages.view().dom(),
            increasing(views(removed@)),
    {
        let entries = index.packages.entries();
        let mut names: Vec<String> = Vec::new();
        let mut i: usize = 0;
        while i < entries.len()
            invariant
                i <= entries.len(),
                views(names@) == entries@.take(i as int).map_values(|e: (String, PackageRecord)| e.0@),
            decreases entries.len() - i,
        {
            let ghost before = views(names@);
            names.push(entries[i].0.clone());
            assert(views(names@) =~= before.push(entries@[i as int].0@));
            assert(entries@.take(i + 1).map_values(|e: (String, PackageRecord)| e.0@) =~= entries@.take(
                i as int,
            ).map_values(|e: (String, PackageRecord)| e.0@).push(entries@[i as int].0@));
            i = i + 1;
        }
        assert(entries@.take(entries@.len() as int) =~= entries@);
        let ghost m0 = index.packages.view();
        let ghost nv = views(names@);
        assert(increasing(nv)) by {
            assert forall|a: int, b: int| 0 <= a < b < nv.len() implies lex_lt(
                #[trigger] nv[a],
                #[trigger] nv[b],
            ) by {
                assert(nv[a] == entries@[a].0@ && nv[b] == entries@[b].0@);
            }
        }
        assert(nv.to_set() =~= m0.dom()) by {
            assert forall|x: Seq<char>| nv.to_set().contains(x) == m0.dom().contains(x) by {
                if nv.to_set().contains(x) {
                    let a = choose|a: int| 0 <= a < nv.len() && nv[a] == x;
                    assert(nv[a] == entries@[a].0@);
                    crate::strmap::lemma_entry(entries@, a);
                }
                if m0.dom().contains(x) {
                    let a = choose|a: int| 0 <= a < entries@.len() && #[trigger] entries@[a].0@ == x;
                    assert(nv[a] == x);
                }
            }
        }
        proof {
            lemma_remove_all_fold(m0, nv);
        }
        self.remove_templates(index, &names)
    }
}

/// The name a repository is shown under: the last piece of its URL, without
/// a trailing `.git`.
pub fn repo_display_name(repo: &str) -> (out: String)
    ensures
        out@ == crate::render::trim_end_all(
            crate::text::split_seq(repo@, '/').last(),
            ".git"@,
        ),
{
    let parts = crate::text::split_char(repo, '/');
    proof {
        crate::text::lemma_split_nonempty(repo@, '/');
    }
    assert(views(parts@).last() == parts@[parts@.len() - 1]@);
    crate::render::trim_end_matches(parts[parts.len() - 1].as_str(), ".git")
}

/// Whether an install must ask which templates to take: only when none were
/// named and `--interactive` was given.
pub fn needs_selection(templates: &Vec<String>, interactive: bool) -> (res: Result<bool, String>)
    ensures
        templates@.len() > 0 ==> res == Ok::<bool, String>(false),
        templates@.len() == 0 && !interactive ==> (res matches Err(e) && e@
            == "provide at least one template or use --interactive"@),
        templates@.len() == 0 && interactive ==> res == Ok::<bool, String>(true),
{
    if templates.len() > 0 {
        Ok(false)
    } else if !interactive {
        Err("provide at least one template or use --interactive".to_owned())
    } else {
        Ok(true)
    }
}

/// The non-blank pieces of a comma-separated list, trimmed.
pub open spec fn selection_spec(parts: Seq<Seq<char>>) -> Seq<Seq<char>>
    decreases parts.len(),
{
    if parts.len() == 0 {
        Seq::empty()
    } else {
        let t = crate::text::trim_seq(parts.last());
        selection_spec(parts.drop_last()) + (if t.len() > 0 {
            seq![t]
        } else {
            Seq::empty()
        })
    }
}

/// Reads the answer to the interactive selection: comma-separated names.
pub fn parse_selection(line: &str) -> (res: Result<Vec<String>, String>)
    ensures
        selection_spec(crate::text::split_seq(line@, ',')).len() == 0 ==> (res matches Err(e) && e@
            == "no templates selected"@),
        selection_spec(crate::text::split_seq(line@, ',')).len() > 0 ==> (res matches Ok(v) && views(
            v@,
        ) == selection_spec(crate::text::split_seq(line@, ','))),
{
    let parts = crate::text::split_char(line, ',');
    let ghost pv = views(parts@);
    let mut out: Vec<String> = Vec::new();
    let mut i: usize = 0;
    assert(pv.take(0) =~= Seq::<Seq<char>>::empty());
    while i < parts.len()
        invariant
            i <= parts.len(),
            pv == views(parts@),
            views(out@) == selection_spec(pv.take(i as int)),
        decreases parts.len() - i,
    {
        assert(pv.take(i + 1).drop_last() =~= pv.take(i as int));
        assert(pv.take(i + 1).last() == parts@[i as int]@);
        let t = crate::text::trim(parts[i].as_str());
        if !t.as_str().is_empty() {
            let ghost before = views(out@);
            out.push(t);
            assert(views(out@) =~= before + seq![t@]);
        } else {
            assert(views(out@) =~= views(out@) + Seq::<Seq<char>>::empty());
        }
        i = i + 1;
    }
    assert(pv.take(pv.len() as int) =~= pv);
    if out.len() == 0 {
        return Err("no templates selected".to_owned());
    }
    Ok(out)
}

/// The installed templates an update covers, with the repositories they
/// came from, in name order: the wanted ones, or all when none are named.
pub fn update_targets(entries: &Vec<(String, PackageRecord)>, wanted: &Vec<String>) -> (out: Vec<
    (String, String),
>)
    ensures
        out@.map_values(|p: (String, String)| (p.0@, p.1@)) == entries@.map_values(
            |e: (String, PackageRecord)| (e.0@, e.1.repo@),
        ).filter(wanted_entry(views(wanted@))),
{
    let ghost pairs = entries@.map_values(|e: (String, PackageRecord)| (e.0@, e.1.repo@));
    let ghost f = wanted_entry(views(wanted@));
    let mut out: Vec<(String, String)> = Vec::new();
    let mut i: usize = 0;
    assert(pairs.take(0).filter(f) =~= Seq::<(Seq<char>, Seq<char>)>::empty());
    while i < entries.len()
        invariant
            i <= entries.len(),
            pairs == entries@.map_values(|e: (String, PackageRecord)| (e.0@, e.1.repo@)),
            f == wanted_entry(views(wanted@)),
            out@.map_values(|p: (String, String)| (p.0@, p.1@)) == pairs.take(i as int).filter(f),
        decreases entries.len() - i,
    {
        assert(pairs.take(i + 1).drop_last() =~= pairs.take(i as int));
        assert(pairs.take(i + 1).last() == (entries@[i as int].0@, entries@[i as int].1.repo@));
        reveal(Seq::filter);
        let n = entries[i].0.as_str();
        if wanted.len() == 0 || crate::text::contains_str(wanted, n) {
            assert(f(pairs[i as int]));
            let ghost before = out@.map_values(|p: (String, String)| (p.0@, p.1@));
            out.push((n.to_owned(), entries[i].1.repo.clone()));
            assert(out@.map_values(|p: (String, String)| (p.0@, p.1@)) =~= before.push(
                pairs[i as int],
            ));
        } else {
            assert(!f(pairs[i as int]));
        }
        i = i + 1;
    }
    assert(pairs.take(pairs.len() as int) =~= pairs);
    out
}

/// Whether an update covers an installed template (name, repository):
/// every one when no names are wanted.
pub open spec fn wanted_entry(wanted: Seq<Seq<char>>) -> spec_fn((Seq<char>, Seq<char>)) -> bool {
    |p: (Seq<char>, Seq<char>)| wanted.len() == 0 || wanted.contains(p.0)
}

/// Removing names one by one: the map left, and the names that were present
/// when their turn came, in turn order.
pub open spec fn remove_fold<V>(m: Map<Seq<char>, V>, names: Seq<Seq<char>>) -> (Map<Seq<char>, V>, Seq<Seq<char>>)
    decreases names.len(),
{
    if names.len() == 0 {
        (m, Seq::empty())
    } else {
        let (m1, r1) = remove_fold(m, names.drop_last());
        let n = names.last();
        if m1.contains_key(n) {
            (m1.remove(n), r1.push(n))
        } else {
            (m1, r1)
        }
    }
}

proof fn lemma_filter_prefix<A>(s: Seq<A>, f: spec_fn(A) -> bool, t: int)
    requires
        0 <= t < s.len(),
        f(s[t]),
    ensures
        s.filter(f)[s.take(t).filter(f).len() as int] == s[t],
        s.filter(f).take(s.take(t).filter(f).len() as int) == s.take(t).filter(f),
        s.take(t).filter(f).len() < s.filter(f).len(),
    decreases s.len() - t,
{
    reveal(Seq::filter);
    if t == s.len() - 1 {
        assert(s.drop_last() =~= s.take(t));
        assert(s.filter(f) == s.take(t).filter(f).push(s[t]));
        assert(s.filter(f).take(s.take(t).filter(f).len() as int) =~= s.take(t).filter(f));
    } else {
        let d = s.drop_last();
        assert(d.take(t) =~= s.take(t));
        assert(d[t] == s[t]);
        lemma_filter_prefix(d, f, t);
        let k = s.take(t).filter(f).len() as int;
        if f(s.last()) {
            assert(s.filter(f) == d.filter(f).push(s.last()));
        } else {
            assert(s.filter(f) == d.filter(f));
        }
        assert(s.filter(f).take(k) =~= d.filter(f).take(k));
    }
}

proof fn lemma_plan_conflict(sel: Seq<ProbedTemplate>, index: Map<Seq<char>, PackageRecord>, repo: Seq<char>, c: int)
    requires
        0 <= c < sel.len(),
        conflicts(index, repo, sel[c].name@),
        forall|d: int| 0 <= d < c ==> !conflicts(index, repo, #[trigger] sel[d].name@),
    ensures
        plan_spec(sel, index, repo) == (
            sel.take(c),
            Some(
                "template '"@ + sel[c].name@ + "' is already installed from '"@
                    + index[sel[c].name@].repo@ + "'"@,
            ),
        ),
{
    let k = choose|k: int|
        0 <= k < sel.len() && conflicts(index, repo, #[trigger] sel[k].name@) && forall|d: int|
            0 <= d < k ==> !conflicts(index, repo, #[trigger] sel[d].name@);
    if k < c {
        assert(!conflicts(index, repo, sel[k].name@));
    }
    if c < k {
        assert(!conflicts(index, repo, sel[c].name@));
    }
}

/// A conflict among the selected templates has a first one.
proof fn lemma_first_conflict(sel: Seq<ProbedTemplate>, index: Map<Seq<char>, PackageRecord>, repo: Seq<char>, c: int)
    requires
        0 <= c < sel.len(),
        conflicts(index, repo, sel[c].name@),
    ensures
        exists|k: int|
            0 <= k < sel.len() && conflicts(index, repo, #[trigger] sel[k].name@) && forall|d: int|
                0 <= d < k ==> !conflicts(index, repo, #[trigger] sel[d].name@),
    decreases c,
{
    if exists|d: int| 0 <= d < c && conflicts(index, repo, #[trigger] sel[d].name@) {
        let d = choose|d: int| 0 <= d < c && conflicts(index, repo, #[trigger] sel[d].name@);
        lemma_first_conflict(sel, index, repo, d);
    } else {
        assert(forall|d: int| 0 <= d < c ==> !conflicts(index, repo, #[trigger] sel[d].name@));
    }
}

/// An install never replaces a template installed from another repository:
/// every template it copies is absent from the index or installed from the
/// same repository, it stops exactly when some selected template conflicts,
/// and without a conflict it copies the whole selection.
pub proof fn law_install_never_replaces_other_repo(
    sel: Seq<ProbedTemplate>,
    index: Map<Seq<char>, PackageRecord>,
    repo: Seq<char>,
)
    ensures
        forall|k: int|
            0 <= k < plan_spec(sel, index, repo).0.len() ==> !conflicts(
                index,
                repo,
                #[trigger] plan_spec(sel, index, repo).0[k].name@,
            ),
        plan_spec(sel, index, repo).1 is None <==> forall|c: int|
            0 <= c < sel.len() ==> !conflicts(index, repo, #[trigger] sel[c].name@),
        plan_spec(sel, index, repo).1 is None ==> plan_spec(sel, index, repo).0 == sel,
{
    if exists|c: int| 0 <= c < sel.len() && conflicts(index, repo, #[trigger] sel[c].name@) {
        let c0 = choose|c: int| 0 <= c < sel.len() && conflicts(index, repo, #[trigger] sel[c].name@);
        lemma_first_conflict(sel, index, repo, c0);
        let k = choose|k: int|
            0 <= k < sel.len() && conflicts(index, repo, #[trigger] sel[k].name@) && forall|d: int|
                0 <= d < k ==> !conflicts(index, repo, #[trigger] sel[d].name@);
        lemma_plan_conflict(sel, index, repo, k);
        assert forall|j: int| 0 <= j < plan_spec(sel, index, repo).0.len() implies !conflicts(
            index,
            repo,
            #[trigger] plan_spec(sel, index, repo).0[j].name@,
        ) by {
            assert(sel.take(k)[j] == sel[j]);
        }
    }
}

proof fn lemma_remove_all_fold<V>(m: Map<Seq<char>, V>, names: Seq<Seq<char>>)
    requires
        increasing(names),
        names.to_set() == m.dom(),
    ensures
        remove_fold(m, names).0 == Map::<Seq<char>, V>::empty(),
        remove_fold(m, names).1 == names,
{
    lemma_remove_fold_distinct(m, names);
    assert(remove_fold(m, names).0 =~= Map::<Seq<char>, V>::empty());
}

proof fn lemma_remove_fold_distinct<V>(m: Map<Seq<char>, V>, names: Seq<Seq<char>>)
    requires
        increasing(names),
        forall|i: int| 0 <= i < names.len() ==> m.contains_key(#[trigger] names[i]),
    ensures
        remove_fold(m, names).1 == names,
        forall|x: Seq<char>| #[trigger]
            remove_fold(m, names).0.contains_key(x) <==> m.contains_key(x) && !names.contains(x),
    decreases names.len(),
{
    if names.len() > 0 {
        let d = names.drop_last();
        assert(increasing(d)) by {
            assert forall|a: int, b: int| 0 <= a < b < d.len() implies lex_lt(
                #[trigger] d[a],
                #[trigger] d[b],
            ) by {
                assert(d[a] == names[a] && d[b] == names[b]);
            }
        }
        lemma_remove_fold_distinct(m, d);
        let n = names.last();
        assert(!d.contains(n)) by {
            if d.contains(n) {
                let a = choose|a: int| 0 <= a < d.len() && d[a] == n;
                assert(lex_lt(names[a], names[names.len() - 1]));
                crate::order::lemma_lex_irreflexive(n);
            }
        }
        assert(m.contains_key(names[names.len() - 1]));
        assert(remove_fold(m, d).0.contains_key(n));
        assert(d.push(n) =~= names);
        assert forall|x: Seq<char>| #[trigger] remove_fold(m, names).0.contains_key(x) <==> m.contains_key(
            x,
        ) && !names.contains(x) by {
            if names.contains(x) && x != n {
                let a = choose|a: int| 0 <= a < names.len() && names[a] == x;
                assert(d[a] == x);
            }
            if d.contains(x) {
                let a = choose|a: int| 0 <= a < d.len() && d[a] == x;
                assert(names[a] == x);
            }
            if x == n {
                assert(names[names.len() - 1] == x);
            }
        }
    }
}

} // verus!
