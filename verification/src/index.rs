use vstd::prelude::*;
use crate::codec::{
    base_fields_text, lemma_parse_base_fields_bound, lemma_parse_base_fields_of,
    parse_base_fields, parse_base_x,
};
use crate::json::{
    expect_lit, join_comma, lemma_join_comma_snoc, lemma_parse_quoted_bound,
    lemma_parse_quoted_of, lemma_parse_str_list_bound, lemma_parse_str_list_of, lit_at,
    parse_quoted, parse_str_list, parse_string, parse_string_list, push_lit, push_quoted,
    push_str_list, quoted, str_list,
};
use crate::manifest::{BaseView, PackageBase};
use crate::text::{chars_to_string, str_to_chars};
use crate::Error;

verus! {

/// One built version of a package as the index records it: the digest of the
/// artifact text and the dependency list copied from the manifest.
pub struct Version {
    pub digest: String,
    pub dependencies: Vec<String>,
}

/// Mathematical value of a [`Version`].
#[verifier::ext_equal]
pub struct VersionView {
    pub digest: Seq<char>,
    pub dependencies: Seq<Seq<char>>,
}

impl View for Version {
    type V = VersionView;

    open spec fn view(&self) -> VersionView {
        VersionView { digest: self.digest@, dependencies: self.dependencies.deep_view() }
    }
}

/// A package as the index records it: the latest build's descriptive
/// metadata, every known version, and the version most recently built.
pub struct Package {
    pub manifest: PackageBase,
    pub versions: Vec<(String, Version)>,
    pub latest_version: String,
}

/// Mathematical value of an index [`Package`].
#[verifier::ext_equal]
pub struct IndexPackageView {
    pub manifest: BaseView,
    pub versions: Seq<(Seq<char>, VersionView)>,
    pub latest_version: Seq<char>,
}

impl View for Package {
    type V = IndexPackageView;

    open spec fn view(&self) -> IndexPackageView {
        IndexPackageView {
            manifest: self.manifest@,
            versions: self.versions@.map_values(|e: (String, Version)| (e.0@, e.1@)),
            latest_version: self.latest_version@,
        }
    }
}

/// The repository index: the mapping from package directory name to recorded
/// package, keyed in insertion order. This is the sole persisted state.
pub struct Index {
    pub entries: Vec<(String, Package)>,
}

impl View for Index {
    type V = Seq<(Seq<char>, IndexPackageView)>;

    open spec fn view(&self) -> Seq<(Seq<char>, IndexPackageView)> {
        self.entries@.map_values(|e: (String, Package)| (e.0@, e.1@))
    }
}

/// Whether an association list holds a key.
pub open spec fn has_key<V>(s: Seq<(Seq<char>, V)>, k: Seq<char>) -> bool
    decreases s.len(),
{
    if s.len() == 0 {
        false
    } else if s[0].0 == k {
        true
    } else {
        has_key(s.skip(1), k)
    }
}

/// The value at a key's first occurrence.
pub open spec fn get_val<V>(s: Seq<(Seq<char>, V)>, k: Seq<char>) -> V
    recommends
        has_key(s, k),
    decreases s.len(),
{
    if s.len() == 0 {
        arbitrary()
    } else if s[0].0 == k {
        s[0].1
    } else {
        get_val(s.skip(1), k)
    }
}

/// Replace the value at a key's first occurrence, or append the pair.
pub open spec fn upsert<V>(s: Seq<(Seq<char>, V)>, k: Seq<char>, v: V) -> Seq<(Seq<char>, V)>
    decreases s.len(),
{
    if s.len() == 0 {
        seq![(k, v)]
    } else if s[0].0 == k {
        seq![(k, v)] + s.skip(1)
    } else {
        seq![s[0]] + upsert(s.skip(1), k, v)
    }
}

/// The mapping an association list denotes; an earlier occurrence of a key
/// hides a later one.
pub open spec fn map_of<V>(s: Seq<(Seq<char>, V)>) -> Map<Seq<char>, V>
    decreases s.len(),
{
    if s.len() == 0 {
        Map::empty()
    } else {
        map_of(s.skip(1)).insert(s[0].0, s[0].1)
    }
}

pub proof fn lemma_map_of_upsert<V>(s: Seq<(Seq<char>, V)>, k: Seq<char>, v: V)
    ensures
        map_of(upsert(s, k, v)) == map_of(s).insert(k, v),
    decreases s.len(),
{
    if s.len() == 0 {
        assert(upsert(s, k, v) == seq![(k, v)]);
        assert(upsert(s, k, v).skip(1) =~= Seq::<(Seq<char>, V)>::empty());
        assert(map_of(upsert(s, k, v).skip(1)) == Map::<Seq<char>, V>::empty());
        assert(map_of(upsert(s, k, v)) == map_of(upsert(s, k, v).skip(1)).insert(k, v));
        assert(map_of(s) == Map::<Seq<char>, V>::empty());
        assert(map_of(upsert(s, k, v)) =~= map_of(s).insert(k, v));
    } else if s[0].0 == k {
        let u = seq![(k, v)] + s.skip(1);
        assert(u[0] == (k, v));
        assert(u.skip(1) =~= s.skip(1));
        assert(map_of(u) == map_of(s.skip(1)).insert(k, v));
        assert(map_of(s) == map_of(s.skip(1)).insert(k, s[0].1));
        assert(map_of(s.skip(1)).insert(k, v) =~= map_of(s.skip(1)).insert(k, s[0].1).insert(
            k,
            v,
        ));
    } else {
        lemma_map_of_upsert(s.skip(1), k, v);
        let u = seq![s[0]] + upsert(s.skip(1), k, v);
        assert(u[0] == s[0]);
        assert(u.skip(1) =~= upsert(s.skip(1), k, v));
        assert(map_of(u) == map_of(s.skip(1)).insert(k, v).insert(s[0].0, s[0].1));
        assert(map_of(s.skip(1)).insert(k, v).insert(s[0].0, s[0].1) =~= map_of(s.skip(1)).insert(
            s[0].0,
            s[0].1,
        ).insert(k, v));
    }
}

pub proof fn lemma_map_of_key<V>(s: Seq<(Seq<char>, V)>, k: Seq<char>)
    ensures
        map_of(s).contains_key(k) == has_key(s, k),
        has_key(s, k) ==> map_of(s)[k] == get_val(s, k),
    decreases s.len(),
{
    if s.len() > 0 {
        lemma_map_of_key(s.skip(1), k);
    }
}

pub proof fn lemma_has_key_index<V>(s: Seq<(Seq<char>, V)>, k: Seq<char>)
    ensures
        has_key(s, k) <==> exists|i: int| 0 <= i < s.len() && s[i].0 == k,
    decreases s.len(),
{
    if s.len() > 0 {
        lemma_has_key_index(s.skip(1), k);
        if s[0].0 == k {
            assert(s[0].0 == k && 0 < s.len());
        } else if has_key(s.skip(1), k) {
            let i = choose|i: int| 0 <= i < s.skip(1).len() && s.skip(1)[i].0 == k;
            assert(s[i + 1].0 == k);
        } else {
            assert forall|i: int| 0 <= i < s.len() implies s[i].0 != k by {
                if i > 0 {
                    assert(s.skip(1)[i - 1] == s[i]);
                }
            }
        }
    }
}

pub proof fn lemma_upsert_at<V>(s: Seq<(Seq<char>, V)>, k: Seq<char>, v: V, i: int)
    requires
        0 <= i < s.len(),
        s[i].0 == k,
        forall|j: int| 0 <= j < i ==> s[j].0 != k,
    ensures
        upsert(s, k, v) == s.update(i, (k, v)),
        has_key(s, k),
        get_val(s, k) == s[i].1,
    decreases s.len(),
{
    if i == 0 {
        assert(upsert(s, k, v) == seq![(k, v)] + s.skip(1));
        assert(seq![(k, v)] + s.skip(1) =~= s.update(0, (k, v)));
    } else {
        assert(s.skip(1)[i - 1] == s[i]);
        assert forall|j: int| 0 <= j < i - 1 implies s.skip(1)[j].0 != k by {
            assert(s.skip(1)[j] == s[j + 1]);
        }
        lemma_upsert_at(s.skip(1), k, v, i - 1);
        assert(seq![s[0]] + s.skip(1).update(i - 1, (k, v)) =~= s.update(i, (k, v)));
    }
}

pub proof fn lemma_upsert_absent<V>(s: Seq<(Seq<char>, V)>, k: Seq<char>, v: V)
    requires
        forall|j: int| 0 <= j < s.len() ==> s[j].0 != k,
    ensures
        upsert(s, k, v) == s.push((k, v)),
        !has_key(s, k),
    decreases s.len(),
{
    if s.len() == 0 {
        assert(seq![(k, v)] =~= s.push((k, v)));
    } else {
        assert forall|j: int| 0 <= j < s.skip(1).len() implies s.skip(1)[j].0 != k by {
            assert(s.skip(1)[j] == s[j + 1]);
        }
        lemma_upsert_absent(s.skip(1), k, v);
        assert(seq![s[0]] + s.skip(1).push((k, v)) =~= s.push((k, v)));
    }
}

/// The index entry that one successful build leaves for its package: the
/// latest manifest metadata, the previously known versions with this build's
/// version record inserted, and this version as the latest.
pub open spec fn merged_package(
    entries: Seq<(Seq<char>, IndexPackageView)>,
    name: Seq<char>,
    base: BaseView,
    version: Seq<char>,
    ver: VersionView,
) -> IndexPackageView {
    let old_versions = if has_key(entries, name) {
        get_val(entries, name).versions
    } else {
        Seq::empty()
    };
    IndexPackageView {
        manifest: base,
        versions: upsert(old_versions, version, ver),
        latest_version: version,
    }
}

impl Index {
    /// An index with no packages.
    pub fn new() -> (r: Index)
        ensures
            r@ == Seq::<(Seq<char>, IndexPackageView)>::empty(),
    {
        let r = Index { entries: Vec::new() };
        proof {
            assert(r@ =~= Seq::<(Seq<char>, IndexPackageView)>::empty());
        }
        r
    }

    /// Record one built version: insert a fresh entry for an unknown name;
    /// for a known name overwrite the metadata, set the latest version, and
    /// insert or overwrite that one version, leaving every other version
    /// untouched.
    pub fn merge_one(
        &mut self,
        name: &String,
        base: PackageBase,
        version: &String,
        ver: Version,
    )
        ensures
            final(self)@ == upsert(
                old(self)@,
                name@,
                merged_package(old(self)@, name@, base@, version@, ver@),
            ),
    {
        let ghost entries0 = self@;
        let ghost merged = merged_package(self@, name@, base@, version@, ver@);
        let n = self.entries.len();
        let mut i: usize = 0;
        while i < n
            invariant
                n == self.entries@.len(),
                i <= n,
                self@ == entries0,
                self == old(self),
                entries0 == old(self)@,
                merged == merged_package(entries0, name@, base@, version@, ver@),
                forall|j: int| 0 <= j < i ==> (#[trigger] self.entries@[j]).0@ != name@,
            decreases n - i,
        {
            if self.entries[i].0 == *name {
                proof {
                    assert(entries0[i as int].0 == name@);
                    assert(forall|j: int|
                        0 <= j < i ==> (#[trigger] entries0[j]).0 != name@);
                    lemma_upsert_at(entries0, name@, merged, i as int);
                }
                let e = self.entries.remove(i);
                let key = e.0;
                let pkg = e.1;
                let ghost oldvs = pkg@.versions;
                proof {
                    assert(entries0[i as int].1 == pkg@);
                    assert(get_val(entries0, name@) == pkg@);
                }
                let mut versions = pkg.versions;
                let m = versions.len();
                let mut j: usize = 0;
                let mut found = false;
                let mut at: usize = 0;
                while j < m
                    invariant
                        m == versions@.len(),
                        j <= m,
                        !found ==> forall|t: int|
                            0 <= t < j ==> (#[trigger] versions@[t]).0@ != version@,
                        found ==> at < j <= m && versions@[at as int].0@ == version@ && forall|
                            t: int,
                        |
                            0 <= t < at ==> (#[trigger] versions@[t]).0@ != version@,
                    decreases m - j,
                {
                    if !found && versions[j].0 == *version {
                        found = true;
                        at = j;
                    }
                    j += 1;
                }
                let ghost vsv = versions@.map_values(|e: (String, Version)| (e.0@, e.1@));
                if found {
                    proof {
                        assert(vsv[at as int].0 == version@);
                        assert(forall|t: int|
                            0 <= t < at ==> (#[trigger] vsv[t]).0 != version@);
                        lemma_upsert_at(vsv, version@, ver@, at as int);
                    }
                    versions.remove(at);
                    versions.insert(at, (version.clone(), ver));
                    proof {
                        assert(versions@.map_values(|e: (String, Version)| (e.0@, e.1@)) =~= vsv
                            .update(at as int, (version@, ver@)));
                    }
                } else {
                    proof {
                        assert(forall|t: int|
                            0 <= t < vsv.len() ==> (#[trigger] vsv[t]).0 != version@);
                        lemma_upsert_absent(vsv, version@, ver@);
                    }
                    versions.push((version.clone(), ver));
                    proof {
                        assert(versions@.map_values(|e: (String, Version)| (e.0@, e.1@)) =~= vsv
                            .push((version@, ver@)));
                    }
                }
                let newp = Package { manifest: base, versions, latest_version: version.clone() };
                proof {
                    assert(oldvs == vsv);
                    assert(newp@.manifest == merged.manifest);
                    assert(newp@.latest_version == merged.latest_version);
                    assert(newp@.versions =~~= merged.versions);
                    assert(newp@ =~~= merged);
                }
                self.entries.insert(i, (key, newp));
                proof {
                    assert(self@ =~= entries0.update(i as int, (name@, merged)));
                }
                return ;
            }
            i += 1;
        }
        proof {
            assert(forall|j: int| 0 <= j < entries0.len() ==> (#[trigger] entries0[j]).0 != name@);
            lemma_upsert_absent(entries0, name@, merged);
            assert(!has_key(entries0, name@));
        }
        let mut versions: Vec<(String, Version)> = Vec::new();
        versions.push((version.clone(), ver));
        let newp = Package { manifest: base, versions, latest_version: version.clone() };
        proof {
            assert(newp@.versions =~= seq![(version@, ver@)]);
            assert(newp@ =~~= merged);
        }
        self.entries.push((name.clone(), newp));
        proof {
            assert(self@ =~= entries0.push((name@, merged)));
        }
    }
}

/// Merging is an upsert on the index as a mapping: the merged entry stands
/// at the name, its version map is the old version map with this version's
/// record inserted, its latest version is this version, and every other name
/// keeps its entry.
pub proof fn lemma_merge_semantics(
    entries: Seq<(Seq<char>, IndexPackageView)>,
    name: Seq<char>,
    base: BaseView,
    version: Seq<char>,
    ver: VersionView,
)
    ensures
        map_of(upsert(entries, name, merged_package(entries, name, base, version, ver)))
            == map_of(entries).insert(name, merged_package(entries, name, base, version, ver)),
        map_of(merged_package(entries, name, base, version, ver).versions) == map_of(
            if has_key(entries, name) {
                get_val(entries, name).versions
            } else {
                Seq::<(Seq<char>, VersionView)>::empty()
            },
        ).insert(version, ver),
        merged_package(entries, name, base, version, ver).latest_version == version,
        merged_package(entries, name, base, version, ver).manifest == base,
{
    let merged = merged_package(entries, name, base, version, ver);
    lemma_map_of_upsert(entries, name, merged);
    let old_versions = if has_key(entries, name) {
        get_val(entries, name).versions
    } else {
        Seq::<(Seq<char>, VersionView)>::empty()
    };
    lemma_map_of_upsert(old_versions, version, ver);
}

/// Merging the same version record twice leaves the same index mapping as
/// merging it once.
pub proof fn lemma_merge_idempotent(
    entries: Seq<(Seq<char>, IndexPackageView)>,
    name: Seq<char>,
    base: BaseView,
    version: Seq<char>,
    ver: VersionView,
)
    ensures
        map_of(
            upsert(
                upsert(entries, name, merged_package(entries, name, base, version, ver)),
                name,
                merged_package(
                    upsert(entries, name, merged_package(entries, name, base, version, ver)),
                    name,
                    base,
                    version,
                    ver,
                ),
            ),
        ) == map_of(upsert(entries, name, merged_package(entries, name, base, version, ver))),
{
    let m1 = merged_package(entries, name, base, version, ver);
    let u1 = upsert(entries, name, m1);
    let m2 = merged_package(u1, name, base, version, ver);
    lemma_map_of_upsert(entries, name, m1);
    lemma_map_of_upsert(u1, name, m2);
    lemma_map_of_key(u1, name);
    assert(map_of(u1) == map_of(entries).insert(name, m1));
    assert(map_of(u1).contains_key(name));
    assert(has_key(u1, name) && get_val(u1, name) == m1);
    let old_versions = if has_key(entries, name) {
        get_val(entries, name).versions
    } else {
        Seq::<(Seq<char>, VersionView)>::empty()
    };
    // the first occurrence of `version` in m1.versions already holds `ver`,
    // so the second upsert changes nothing
    if has_key(old_versions, version) {
        lemma_first_occ(old_versions, version);
        let i = choose|i: int|
            0 <= i < old_versions.len() && old_versions[i].0 == version && forall|j: int|
                0 <= j < i ==> old_versions[j].0 != version;
        lemma_upsert_at(old_versions, version, ver, i);
        assert(m1.versions == old_versions.update(i, (version, ver)));
        assert(forall|j: int| 0 <= j < i ==> m1.versions[j].0 != version);
        lemma_upsert_at(m1.versions, version, ver, i);
        assert(m1.versions.update(i, (version, ver)) =~= m1.versions);
    } else {
        lemma_has_key_index(old_versions, version);
        assert(forall|j: int|
            0 <= j < old_versions.len() ==> (#[trigger] old_versions[j]).0 != version);
        lemma_upsert_absent(old_versions, version, ver);
        assert(m1.versions == old_versions.push((version, ver)));
        let i = old_versions.len() as int;
        assert(m1.versions[i].0 == version);
        lemma_upsert_at(m1.versions, version, ver, i);
        assert(m1.versions.update(i, (version, ver)) =~= m1.versions);
    }
    assert(m2.versions == m1.versions);
    assert(m2 =~= m1);
    assert(map_of(upsert(u1, name, m2)) == map_of(u1).insert(name, m1));
    assert(map_of(u1).insert(name, m1) =~= map_of(u1));
}

pub proof fn lemma_first_occ<V>(s: Seq<(Seq<char>, V)>, k: Seq<char>)
    requires
        has_key(s, k),
    ensures
        exists|i: int|
            0 <= i < s.len() && s[i].0 == k && forall|j: int| 0 <= j < i ==> s[j].0 != k,
    decreases s.len(),
{
    if s[0].0 == k {
        assert(s[0].0 == k && forall|j: int| 0 <= j < 0 ==> s[j].0 != k);
    } else {
        lemma_first_occ(s.skip(1), k);
        let i = choose|i: int|
            0 <= i < s.skip(1).len() && s.skip(1)[i].0 == k && forall|j: int|
                0 <= j < i ==> s.skip(1)[j].0 != k;
        assert(s[i + 1].0 == k);
        assert forall|j: int| 0 <= j < i + 1 implies s[j].0 != k by {
            if j > 0 {
                assert(s.skip(1)[j - 1] == s[j]);
            }
        }
    }
}


/// The JSON object one recorded version is written as.
pub open spec fn version_obj(v: VersionView) -> Seq<char> {
    "{\"digest\":"@ + quoted(v.digest) + ",\"dependencies\":"@ + str_list(v.dependencies)
        + seq!['}']
}

/// One member of a versions map.
pub open spec fn version_entry(k: Seq<char>, v: VersionView) -> Seq<char> {
    quoted(k) + seq![':'] + version_obj(v)
}

/// The members of a versions map, in stored order, without the braces.
pub open spec fn versions_body(vs: Seq<(Seq<char>, VersionView)>) -> Seq<char> {
    join_comma(vs.map_values(|e: (Seq<char>, VersionView)| version_entry(e.0, e.1)))
}

/// The JSON object holding a package's versions, braces included.
pub open spec fn versions_obj(vs: Seq<(Seq<char>, VersionView)>) -> Seq<char> {
    seq!['{'] + versions_body(vs) + seq!['}']
}

/// The JSON object one index package is written as.
pub open spec fn ipkg_obj(p: IndexPackageView) -> Seq<char> {
    seq!['{'] + base_fields_text(p.manifest) + ",\"versions\":"@ + versions_obj(p.versions)
        + ",\"latest_version\":"@ + quoted(p.latest_version) + seq!['}']
}

/// One member of the index: the package name as key.
pub open spec fn index_entry(name: Seq<char>, p: IndexPackageView) -> Seq<char> {
    quoted(name) + seq![':'] + ipkg_obj(p)
}

/// The members of the index, in stored order, without the braces.
pub open spec fn index_body(entries: Seq<(Seq<char>, IndexPackageView)>) -> Seq<char> {
    join_comma(entries.map_values(|e: (Seq<char>, IndexPackageView)| index_entry(e.0, e.1)))
}

/// The canonical JSON text of the whole index.
pub open spec fn index_json(entries: Seq<(Seq<char>, IndexPackageView)>) -> Seq<char> {
    seq!['{'] + index_body(entries) + seq!['}']
}

/// Parse the fixed members of a version object.
pub open spec fn parse_version_obj(s: Seq<char>) -> Option<(VersionView, int)> {
    let lit1 = "{\"digest\":"@;
    let lit2 = ",\"dependencies\":"@;
    if !lit_at(s, lit1) {
        None
    } else {
        match parse_quoted(s.skip(lit1.len() as int)) {
            None => None,
            Some((digest, n1)) => {
                let s2 = s.skip(lit1.len() + n1);
                if !lit_at(s2, lit2) {
                    None
                } else {
                    match parse_str_list(s2.skip(lit2.len() as int)) {
                        None => None,
                        Some((dependencies, n2)) => {
                            let s3 = s2.skip(lit2.len() + n2);
                            if s3.len() > 0 && s3[0] == '}' {
                                Some(
                                    (
                                        VersionView { digest, dependencies },
                                        lit1.len() + n1 + lit2.len() + n2 + 1,
                                    ),
                                )
                            } else {
                                None
                            }
                        },
                    }
                }
            },
        }
    }
}

/// Parse one member of a versions map.
pub open spec fn parse_version_entry(s: Seq<char>) -> Option<((Seq<char>, VersionView), int)> {
    match parse_quoted(s) {
        None => None,
        Some((k, n)) => {
            let r = s.skip(n);
            if r.len() > 0 && r[0] == ':' {
                match parse_version_obj(r.skip(1)) {
                    None => None,
                    Some((v, m)) => Some(((k, v), n + 1 + m)),
                }
            } else {
                None
            }
        },
    }
}

pub proof fn lemma_parse_version_obj_bound(s: Seq<char>)
    ensures
        parse_version_obj(s) matches Some((v, n)) ==> 1 <= n <= s.len(),
{
    let lit1 = "{\"digest\":"@;
    let lit2 = ",\"dependencies\":"@;
    if lit_at(s, lit1) {
        lemma_parse_quoted_bound(s.skip(lit1.len() as int));
        match parse_quoted(s.skip(lit1.len() as int)) {
            None => {},
            Some((digest, n1)) => {
                let s2 = s.skip(lit1.len() + n1);
                if lit_at(s2, lit2) {
                    lemma_parse_str_list_bound(s2.skip(lit2.len() as int));
                }
            },
        }
    }
}

pub proof fn lemma_parse_version_entry_bound(s: Seq<char>)
    ensures
        parse_version_entry(s) matches Some((e, n)) ==> 1 <= n <= s.len(),
{
    lemma_parse_quoted_bound(s);
    match parse_quoted(s) {
        None => {},
        Some((k, n)) => {
            let r = s.skip(n);
            if r.len() > 0 && r[0] == ':' {
                lemma_parse_version_obj_bound(r.skip(1));
            }
        },
    }
}

/// Parse the members of a non-empty versions map after the opening brace,
/// closing brace included.
pub open spec fn parse_versions_items(s: Seq<char>) -> Option<(Seq<(Seq<char>, VersionView)>, int)>
    decreases s.len(),
    via parse_versions_items_dec
{
    match parse_version_entry(s) {
        None => None,
        Some((e, n)) => {
            let r = s.skip(n);
            if r.len() > 0 && r[0] == ',' {
                match parse_versions_items(s.skip(n + 1)) {
                    Some((l, m)) => Some((seq![e] + l, n + 1 + m)),
                    None => None,
                }
            } else if r.len() > 0 && r[0] == '}' {
                Some((seq![e], n + 1))
            } else {
                None
            }
        },
    }
}

#[via_fn]
proof fn parse_versions_items_dec(s: Seq<char>) {
    lemma_parse_version_entry_bound(s);
}

/// Parse a whole versions map, braces included.
pub open spec fn parse_versions_obj(s: Seq<char>) -> Option<(Seq<(Seq<char>, VersionView)>, int)> {
    if s.len() == 0 || s[0] != '{' {
        None
    } else if s.len() >= 2 && s[1] == '}' {
        Some((Seq::empty(), 2))
    } else {
        match parse_versions_items(s.skip(1)) {
            Some((l, n)) => Some((l, n + 1)),
            None => None,
        }
    }
}

pub proof fn lemma_parse_versions_items_bound(s: Seq<char>)
    ensures
        parse_versions_items(s) matches Some((l, n)) ==> 1 <= n <= s.len(),
    decreases s.len(),
{
    lemma_parse_version_entry_bound(s);
    match parse_version_entry(s) {
        None => {},
        Some((e, n)) => {
            let r = s.skip(n);
            if r.len() > 0 && r[0] == ',' {
                lemma_parse_versions_items_bound(s.skip(n + 1));
            }
        },
    }
}

pub proof fn lemma_parse_versions_obj_bound(s: Seq<char>)
    ensures
        parse_versions_obj(s) matches Some((l, n)) ==> 1 <= n <= s.len(),
{
    if s.len() > 0 && s[0] == '{' && !(s.len() >= 2 && s[1] == '}') {
        lemma_parse_versions_items_bound(s.skip(1));
    }
}

/// Parse the object an index package is written as.
pub open spec fn parse_ipkg_obj(s: Seq<char>) -> Option<(IndexPackageView, int)> {
    let litv = ",\"versions\":"@;
    let litl = ",\"latest_version\":"@;
    if s.len() == 0 || s[0] != '{' {
        None
    } else {
        match parse_base_fields(s.skip(1)) {
            None => None,
            Some((manifest, n0)) => {
                let s1 = s.skip(1 + n0);
                if !lit_at(s1, litv) {
                    None
                } else {
                    match parse_versions_obj(s1.skip(litv.len() as int)) {
                        None => None,
                        Some((versions, n1)) => {
                            let s2 = s1.skip(litv.len() + n1);
                            if !lit_at(s2, litl) {
                                None
                            } else {
                                match parse_quoted(s2.skip(litl.len() as int)) {
                                    None => None,
                                    Some((latest_version, n2)) => {
                                        let s3 = s2.skip(litl.len() + n2);
                                        if s3.len() > 0 && s3[0] == '}' {
                                            Some(
                                                (
                                                    IndexPackageView {
                                                        manifest,
                                                        versions,
                                                        latest_version,
                                                    },
                                                    1 + n0 + litv.len() + n1 + litl.len() + n2
                                                        + 1,
                                                ),
                                            )
                                        } else {
                                            None
                                        }
                                    },
                                }
                            }
                        },
                    }
                }
            },
        }
    }
}

/// Parse one member of the index.
pub open spec fn parse_index_entry(s: Seq<char>) -> Option<(
    (Seq<char>, IndexPackageView),
    int,
)> {
    match parse_quoted(s) {
        None => None,
        Some((k, n)) => {
            let r = s.skip(n);
            if r.len() > 0 && r[0] == ':' {
                match parse_ipkg_obj(r.skip(1)) {
                    None => None,
                    Some((p, m)) => Some(((k, p), n + 1 + m)),
                }
            } else {
                None
            }
        },
    }
}

pub proof fn lemma_parse_ipkg_obj_bound(s: Seq<char>)
    ensures
        parse_ipkg_obj(s) matches Some((p, n)) ==> 1 <= n <= s.len(),
{
    let litv = ",\"versions\":"@;
    let litl = ",\"latest_version\":"@;
    if s.len() > 0 && s[0] == '{' {
        lemma_parse_base_fields_bound(s.skip(1));
        match parse_base_fields(s.skip(1)) {
            None => {},
            Some((manifest, n0)) => {
                let s1 = s.skip(1 + n0);
                if lit_at(s1, litv) {
                    lemma_parse_versions_obj_bound(s1.skip(litv.len() as int));
                    match parse_versions_obj(s1.skip(litv.len() as int)) {
                        None => {},
                        Some((versions, n1)) => {
                            let s2 = s1.skip(litv.len() + n1);
                            if lit_at(s2, litl) {
                                lemma_parse_quoted_bound(s2.skip(litl.len() as int));
                            }
                        },
                    }
                }
            },
        }
    }
}

pub proof fn lemma_parse_index_entry_bound(s: Seq<char>)
    ensures
        parse_index_entry(s) matches Some((e, n)) ==> 1 <= n <= s.len(),
{
    lemma_parse_quoted_bound(s);
    match parse_quoted(s) {
        None => {},
        Some((k, n)) => {
            let r = s.skip(n);
            if r.len() > 0 && r[0] == ':' {
                lemma_parse_ipkg_obj_bound(r.skip(1));
            }
        },
    }
}

/// Parse the members of a non-empty index after the opening brace, closing
/// brace included.
pub open spec fn parse_index_items(s: Seq<char>) -> Option<(
    Seq<(Seq<char>, IndexPackageView)>,
    int,
)>
    decreases s.len(),
    via parse_index_items_dec
{
    match parse_index_entry(s) {
        None => None,
        Some((e, n)) => {
            let r = s.skip(n);
            if r.len() > 0 && r[0] == ',' {
                match parse_index_items(s.skip(n + 1)) {
                    Some((l, m)) => Some((seq![e] + l, n + 1 + m)),
                    None => None,
                }
            } else if r.len() > 0 && r[0] == '}' {
                Some((seq![e], n + 1))
            } else {
                None
            }
        },
    }
}

#[via_fn]
proof fn parse_index_items_dec(s: Seq<char>) {
    lemma_parse_index_entry_bound(s);
}

/// Parse a whole index object, braces included.
pub open spec fn parse_index_obj(s: Seq<char>) -> Option<(
    Seq<(Seq<char>, IndexPackageView)>,
    int,
)> {
    if s.len() == 0 || s[0] != '{' {
        None
    } else if s.len() >= 2 && s[1] == '}' {
        Some((Seq::empty(), 2))
    } else {
        match parse_index_items(s.skip(1)) {
            Some((l, n)) => Some((l, n + 1)),
            None => None,
        }
    }
}

/// Parse a whole index text. The text must be consumed exactly.
pub open spec fn parse_index_json(s: Seq<char>) -> Option<Seq<(Seq<char>, IndexPackageView)>> {
    match parse_index_obj(s) {
        None => None,
        Some((l, n)) => if n == s.len() {
            Some(l)
        } else {
            None
        },
    }
}


pub proof fn lemma_parse_version_obj_of(v: VersionView, rest: Seq<char>)
    ensures
        parse_version_obj(version_obj(v) + rest) == Some((v, version_obj(v).len() as int)),
{
    let lit1 = "{\"digest\":"@;
    let lit2 = ",\"dependencies\":"@;
    let w = version_obj(v) + rest;
    assert(w.take(lit1.len() as int) =~= lit1);
    let r1 = lit2 + str_list(v.dependencies) + seq!['}'] + rest;
    assert(w.skip(lit1.len() as int) =~= quoted(v.digest) + r1);
    lemma_parse_quoted_of(v.digest, r1);
    let n1 = quoted(v.digest).len() as int;
    let s2 = w.skip(lit1.len() + n1);
    assert(s2 =~= r1);
    assert(s2.take(lit2.len() as int) =~= lit2);
    assert(s2.skip(lit2.len() as int) =~= str_list(v.dependencies) + (seq!['}'] + rest));
    lemma_parse_str_list_of(v.dependencies, seq!['}'] + rest);
    let n2 = str_list(v.dependencies).len() as int;
    let s3 = s2.skip(lit2.len() + n2);
    assert(s3 =~= seq!['}'] + rest);
    assert(s3[0] == '}');
    assert(VersionView { digest: v.digest, dependencies: v.dependencies } =~= v);
}

pub proof fn lemma_parse_version_entry_of(k: Seq<char>, v: VersionView, rest: Seq<char>)
    ensures
        parse_version_entry(version_entry(k, v) + rest) == Some(
            ((k, v), version_entry(k, v).len() as int),
        ),
{
    let w = version_entry(k, v) + rest;
    let r1 = seq![':'] + version_obj(v) + rest;
    assert(w =~= quoted(k) + r1);
    lemma_parse_quoted_of(k, r1);
    let n = quoted(k).len() as int;
    assert(w.skip(n) =~= r1);
    assert(r1[0] == ':');
    assert(w.skip(n).skip(1) =~= version_obj(v) + rest);
    lemma_parse_version_obj_of(v, rest);
}

pub proof fn lemma_parse_versions_items_of(vs: Seq<(Seq<char>, VersionView)>, rest: Seq<char>)
    requires
        vs.len() > 0,
    ensures
        parse_versions_items(versions_body(vs) + seq!['}'] + rest) == Some(
            (vs, versions_body(vs).len() + 1 as int),
        ),
    decreases vs.len(),
{
    let w = versions_body(vs) + seq!['}'] + rest;
    let pieces = vs.map_values(|e: (Seq<char>, VersionView)| version_entry(e.0, e.1));
    let e0 = vs[0];
    if vs.len() == 1 {
        assert(versions_body(vs) =~= version_entry(e0.0, e0.1));
        lemma_parse_version_entry_of(e0.0, e0.1, seq!['}'] + rest);
        assert(w =~= version_entry(e0.0, e0.1) + (seq!['}'] + rest));
        let n = version_entry(e0.0, e0.1).len() as int;
        assert(w.skip(n) =~= seq!['}'] + rest);
        assert(w.skip(n)[0] == '}');
        assert(seq![(e0.0, e0.1)] =~= vs);
    } else {
        assert(pieces.skip(1) =~= vs.skip(1).map_values(
            |e: (Seq<char>, VersionView)| version_entry(e.0, e.1),
        ));
        assert(versions_body(vs) =~= version_entry(e0.0, e0.1) + seq![','] + versions_body(
            vs.skip(1),
        ));
        let tail = seq![','] + versions_body(vs.skip(1)) + seq!['}'] + rest;
        assert(w =~= version_entry(e0.0, e0.1) + tail);
        lemma_parse_version_entry_of(e0.0, e0.1, tail);
        let n = version_entry(e0.0, e0.1).len() as int;
        assert(w.skip(n) =~= tail);
        assert(tail[0] == ',');
        assert(w.skip(n + 1) =~= versions_body(vs.skip(1)) + seq!['}'] + rest);
        lemma_parse_versions_items_of(vs.skip(1), rest);
        assert(seq![(e0.0, e0.1)] + vs.skip(1) =~= vs);
        assert(parse_versions_items(w) == Some((vs, versions_body(vs).len() + 1 as int)));
    }
}

pub proof fn lemma_parse_versions_obj_of(vs: Seq<(Seq<char>, VersionView)>, rest: Seq<char>)
    ensures
        parse_versions_obj(versions_obj(vs) + rest) == Some((vs, versions_obj(vs).len() as int)),
{
    let w = versions_obj(vs) + rest;
    assert(w[0] == '{');
    if vs.len() == 0 {
        assert(versions_body(vs) =~= Seq::<char>::empty());
        assert(w =~= seq!['{', '}'] + rest);
        assert(w[1] == '}');
        assert(vs =~= Seq::<(Seq<char>, VersionView)>::empty());
        assert(versions_obj(vs).len() == 2);
    } else {
        assert(w.skip(1) =~= versions_body(vs) + seq!['}'] + rest);
        lemma_parse_versions_items_of(vs, rest);
        assert(versions_body(vs)[0] == '"');
        assert(w[1] == '"');
        assert(!(w.len() >= 2 && w[1] == '}'));
        assert(parse_versions_obj(w) == Some((vs, versions_obj(vs).len() as int)));
    }
}

#[verifier::rlimit(60)]
pub proof fn lemma_parse_ipkg_obj_of(p: IndexPackageView, rest: Seq<char>)
    ensures
        parse_ipkg_obj(ipkg_obj(p) + rest) == Some((p, ipkg_obj(p).len() as int)),
{
    let litv = ",\"versions\":"@;
    let litl = ",\"latest_version\":"@;
    let w = ipkg_obj(p) + rest;
    assert(w[0] == '{');
    let r0 = litv + versions_obj(p.versions) + litl + quoted(p.latest_version) + seq!['}'] + rest;
    assert(w.skip(1) =~= base_fields_text(p.manifest) + r0);
    lemma_parse_base_fields_of(p.manifest, r0);
    let n0 = base_fields_text(p.manifest).len() as int;
    let s1 = w.skip(1 + n0);
    assert(s1 =~= r0);
    assert(s1.take(litv.len() as int) =~= litv);
    let r1 = litl + quoted(p.latest_version) + seq!['}'] + rest;
    assert(s1.skip(litv.len() as int) =~= versions_obj(p.versions) + r1);
    lemma_parse_versions_obj_of(p.versions, r1);
    let n1 = versions_obj(p.versions).len() as int;
    let s2 = s1.skip(litv.len() + n1);
    assert(s2 =~= r1);
    assert(s2.take(litl.len() as int) =~= litl);
    assert(s2.skip(litl.len() as int) =~= quoted(p.latest_version) + (seq!['}'] + rest));
    lemma_parse_quoted_of(p.latest_version, seq!['}'] + rest);
    let n2 = quoted(p.latest_version).len() as int;
    let s3 = s2.skip(litl.len() + n2);
    assert(s3 =~= seq!['}'] + rest);
    assert(s3[0] == '}');
    assert(IndexPackageView {
        manifest: p.manifest,
        versions: p.versions,
        latest_version: p.latest_version,
    } =~= p);
}

pub proof fn lemma_parse_index_entry_of(k: Seq<char>, p: IndexPackageView, rest: Seq<char>)
    ensures
        parse_index_entry(index_entry(k, p) + rest) == Some(
            ((k, p), index_entry(k, p).len() as int),
        ),
{
    let w = index_entry(k, p) + rest;
    let r1 = seq![':'] + ipkg_obj(p) + rest;
    assert(w =~= quoted(k) + r1);
    lemma_parse_quoted_of(k, r1);
    let n = quoted(k).len() as int;
    assert(w.skip(n) =~= r1);
    assert(r1[0] == ':');
    assert(w.skip(n).skip(1) =~= ipkg_obj(p) + rest);
    lemma_parse_ipkg_obj_of(p, rest);
}

#[verifier::rlimit(100)]
pub proof fn lemma_parse_index_items_of(
    entries: Seq<(Seq<char>, IndexPackageView)>,
    rest: Seq<char>,
)
    requires
        entries.len() > 0,
    ensures
        parse_index_items(index_body(entries) + seq!['}'] + rest) == Some(
            (entries, index_body(entries).len() + 1 as int),
        ),
    decreases entries.len(),
{
    let w = index_body(entries) + seq!['}'] + rest;
    let pieces = entries.map_values(|e: (Seq<char>, IndexPackageView)| index_entry(e.0, e.1));
    let e0 = entries[0];
    if entries.len() == 1 {
        assert(index_body(entries) =~= index_entry(e0.0, e0.1));
        lemma_parse_index_entry_of(e0.0, e0.1, seq!['}'] + rest);
        assert(w =~= index_entry(e0.0, e0.1) + (seq!['}'] + rest));
        let n = index_entry(e0.0, e0.1).len() as int;
        assert(w.skip(n) =~= seq!['}'] + rest);
        assert(w.skip(n)[0] == '}');
        assert(seq![(e0.0, e0.1)] =~= entries);
    } else {
        assert(pieces.skip(1) =~= entries.skip(1).map_values(
            |e: (Seq<char>, IndexPackageView)| index_entry(e.0, e.1),
        ));
        assert(index_body(entries) =~= index_entry(e0.0, e0.1) + seq![','] + index_body(
            entries.skip(1),
        ));
        let tail = seq![','] + index_body(entries.skip(1)) + seq!['}'] + rest;
        assert(w =~= index_entry(e0.0, e0.1) + tail);
        lemma_parse_index_entry_of(e0.0, e0.1, tail);
        let n = index_entry(e0.0, e0.1).len() as int;
        assert(w.skip(n) =~= tail);
        assert(tail[0] == ',');
        assert(w.skip(n + 1) =~= index_body(entries.skip(1)) + seq!['}'] + rest);
        lemma_parse_index_items_of(entries.skip(1), rest);
        assert(seq![(e0.0, e0.1)] + entries.skip(1) =~= entries);
        assert(parse_index_items(w) == Some((entries, index_body(entries).len() + 1 as int)));
    }
}

/// The canonical index text parses back to exactly the entries it was
/// written from.
pub proof fn lemma_parse_index_of(entries: Seq<(Seq<char>, IndexPackageView)>)
    ensures
        parse_index_json(index_json(entries)) == Some(entries),
{
    let w = index_json(entries);
    assert(w[0] == '{');
    if entries.len() == 0 {
        assert(index_body(entries) =~= Seq::<char>::empty());
        assert(w =~= seq!['{', '}']);
        assert(w[1] == '}');
        assert(entries =~= Seq::<(Seq<char>, IndexPackageView)>::empty());
        assert(parse_index_obj(w) == Some((entries, 2int)));
    } else {
        assert(w.skip(1) =~= index_body(entries) + seq!['}'] + Seq::<char>::empty());
        lemma_parse_index_items_of(entries, Seq::<char>::empty());
        assert(index_body(entries)[0] == '"');
        assert(w[1] == '"');
        assert(!(w.len() >= 2 && w[1] == '}'));
        assert(parse_index_obj(w) == Some((entries, w.len() as int)));
    }
}


/// Append one index member: the package name as key, its object as value.
#[verifier::rlimit(100)]
fn push_index_entry(out: &mut Vec<char>, name: &String, pkg: &Package)
    ensures
        final(out)@ == old(out)@ + index_entry(name@, pkg@),
{
    push_quoted(out, name.as_str());
    out.push(':');
    out.push('{');
    push_lit(out, "\"description\":");
    push_quoted(out, pkg.manifest.description.as_str());
    push_lit(out, ",\"license\":");
    push_quoted(out, pkg.manifest.license.as_str());
    push_lit(out, ",\"authors\":");
    push_str_list(out, &pkg.manifest.authors);
    push_lit(out, ",\"maintainers\":");
    push_str_list(out, &pkg.manifest.maintainers);
    push_lit(out, ",\"versions\":");
    out.push('{');
    let ghost vpre = out@;
    let ghost vs = pkg@.versions;
    let ghost vpieces = vs.map_values(|e: (Seq<char>, VersionView)| version_entry(e.0, e.1));
    proof {
        assert(vpre =~= old(out)@ + quoted(name@) + seq![':'] + seq!['{'] + base_fields_text(
            pkg@.manifest,
        ) + ",\"versions\":"@ + seq!['{']);
        assert(out@ =~= vpre + join_comma(vpieces.take(0)));
        assert(vpieces.len() == pkg.versions@.len());
    }
    let mut j: usize = 0;
    while j < pkg.versions.len()
        invariant
            vs == pkg@.versions,
            vpieces == vs.map_values(|e: (Seq<char>, VersionView)| version_entry(e.0, e.1)),
            vpieces.len() == pkg.versions@.len(),
            j <= pkg.versions@.len(),
            out@ == vpre + join_comma(vpieces.take(j as int)),
        decreases pkg.versions@.len() - j,
    {
        if j > 0 {
            out.push(',');
        }
        let ghost vmid = out@;
        push_quoted(out, pkg.versions[j].0.as_str());
        out.push(':');
        push_lit(out, "{\"digest\":");
        push_quoted(out, pkg.versions[j].1.digest.as_str());
        push_lit(out, ",\"dependencies\":");
        push_str_list(out, &pkg.versions[j].1.dependencies);
        out.push('}');
        proof {
            let e = vs[j as int];
            assert(e.0 == pkg.versions@[j as int].0@ && e.1 == pkg.versions@[j as int].1@);
            assert(out@ =~= vmid + version_entry(e.0, e.1));
            assert(vpieces[j as int] == version_entry(e.0, e.1));
            lemma_join_comma_snoc(vpieces.take(j as int), vpieces[j as int]);
            assert(vpieces.take(j as int).push(vpieces[j as int]) =~= vpieces.take(j + 1));
        }
        j += 1;
        proof {
            assert(out@ =~= vpre + join_comma(vpieces.take(j as int)));
        }
    }
    out.push('}');
    push_lit(out, ",\"latest_version\":");
    push_quoted(out, pkg.latest_version.as_str());
    out.push('}');
    proof {
        assert(vpieces.take(pkg.versions@.len() as int) =~= vpieces);
        assert(out@ =~= old(out)@ + index_entry(name@, pkg@));
    }
}

impl Index {
    /// Write the whole index as its canonical JSON text.
    pub fn to_text(&self) -> (r: String)
        ensures
            r@ == index_json(self@),
    {
        let mut out: Vec<char> = Vec::new();
        out.push('{');
        let ghost pieces = self@.map_values(
            |e: (Seq<char>, IndexPackageView)| index_entry(e.0, e.1),
        );
        let mut i: usize = 0;
        proof {
            assert(out@ =~= seq!['{'] + join_comma(pieces.take(0)));
            assert(pieces.len() == self.entries@.len());
        }
        while i < self.entries.len()
            invariant
                pieces == self@.map_values(
                    |e: (Seq<char>, IndexPackageView)| index_entry(e.0, e.1),
                ),
                pieces.len() == self.entries@.len(),
                i <= self.entries@.len(),
                out@ == seq!['{'] + join_comma(pieces.take(i as int)),
            decreases self.entries@.len() - i,
        {
            if i > 0 {
                out.push(',');
            }
            let ghost mid = out@;
            push_index_entry(&mut out, &self.entries[i].0, &self.entries[i].1);
            proof {
                let en = self@[i as int];
                assert(en.0 == self.entries@[i as int].0@ && en.1 == self.entries@[i as int].1@);
                assert(out@ =~= mid + index_entry(en.0, en.1));
                assert(pieces[i as int] == index_entry(en.0, en.1));
                lemma_join_comma_snoc(pieces.take(i as int), pieces[i as int]);
                assert(pieces.take(i as int).push(pieces[i as int]) =~= pieces.take(i + 1));
            }
            i += 1;
            proof {
                assert(out@ =~= seq!['{'] + join_comma(pieces.take(i as int)));
            }
        }
        out.push('}');
        proof {
            assert(pieces.take(self.entries@.len() as int) =~= pieces);
            assert(out@ =~= index_json(self@));
        }
        chars_to_string(&out)
    }
}

/// Parse one member of a versions map, starting at its key.
#[verifier::rlimit(100)]
pub(crate) fn parse_version_entry_x(v: &Vec<char>, i: usize) -> (r: Option<(
    (String, Version),
    usize,
)>)
    requires
        i <= v@.len(),
    ensures
        r matches Some(t) ==> i <= t.1 <= v@.len() && parse_version_entry(v@.skip(i as int))
            == Some((((t.0).0@, (t.0).1@), t.1 - i as int)),
        r is None ==> parse_version_entry(v@.skip(i as int)) is None,
{
    match parse_string(v, i) {
        None => None,
        Some((key, j)) => {
            proof {
                assert(v@.skip(i as int).skip(j - i as int) =~= v@.skip(j as int));
            }
            if j == v.len() {
                proof {
                    assert(v@.skip(j as int).len() == 0);
                }
                return None;
            }
            if v[j] != ':' {
                proof {
                    assert(v@.skip(j as int)[0] == v@[j as int]);
                }
                return None;
            }
            proof {
                assert(v@.skip(j as int)[0] == ':');
                assert(v@.skip(j as int).skip(1) =~= v@.skip(j + 1 as int));
            }
            match expect_lit(v, j + 1, "{\"digest\":") {
                None => None,
                Some(k1) => {
                    proof {
                        assert(v@.skip(j + 1 as int).skip("{\"digest\":"@.len() as int)
                            =~= v@.skip(k1 as int));
                    }
                    match parse_string(v, k1) {
                        None => None,
                        Some((digest, k2)) => {
                            proof {
                                assert(v@.skip(k1 as int).skip(k2 - k1 as int) =~= v@.skip(
                                    k2 as int,
                                ));
                                assert(v@.skip(j + 1 as int).skip(
                                    ("{\"digest\":"@.len() + k2 - k1) as int,
                                ) =~= v@.skip(k2 as int));
                            }
                            match expect_lit(v, k2, ",\"dependencies\":") {
                                None => None,
                                Some(k3) => {
                                    proof {
                                        assert(v@.skip(k2 as int).skip(
                                            ",\"dependencies\":"@.len() as int,
                                        ) =~= v@.skip(k3 as int));
                                    }
                                    match parse_string_list(v, k3) {
                                        None => None,
                                        Some((dependencies, k4)) => {
                                            proof {
                                                assert(v@.skip(k3 as int).skip(k4 - k3 as int)
                                                    =~= v@.skip(k4 as int));
                                                assert(v@.skip(k2 as int).skip(
                                                    (",\"dependencies\":"@.len() + k4 - k3) as int,
                                                ) =~= v@.skip(k4 as int));
                                            }
                                            if k4 == v.len() {
                                                proof {
                                                    assert(v@.skip(k4 as int).len() == 0);
                                                }
                                                return None;
                                            }
                                            if v[k4] != '}' {
                                                proof {
                                                    assert(v@.skip(k4 as int)[0] == v@[k4 as int]);
                                                }
                                                return None;
                                            }
                                            proof {
                                                assert(v@.skip(k4 as int)[0] == '}');
                                                assert(v@.skip(k4 as int).len() > 0);
                                            }
                                            Some(((key, Version { digest, dependencies }), k4 + 1))
                                        },
                                    }
                                },
                            }
                        },
                    }
                },
            }
        },
    }
}

/// Parse a whole versions map, braces included.
#[verifier::rlimit(100)]
pub(crate) fn parse_versions_x(v: &Vec<char>, i: usize) -> (r: Option<(
    Vec<(String, Version)>,
    usize,
)>)
    requires
        i <= v@.len(),
    ensures
        r matches Some(t) ==> i <= t.1 <= v@.len() && parse_versions_obj(v@.skip(i as int))
            == Some((t.0@.map_values(|e: (String, Version)| (e.0@, e.1@)), t.1 - i as int)),
        r is None ==> parse_versions_obj(v@.skip(i as int)) is None,
{
    if i == v.len() || v[i] != '{' {
        return None;
    }
    proof {
        assert(v@.skip(i as int)[0] == '{');
    }
    if i + 1 < v.len() && v[i + 1] == '}' {
        let out: Vec<(String, Version)> = Vec::new();
        proof {
            assert(v@.skip(i as int)[1] == '}');
            assert(out@.map_values(|e: (String, Version)| (e.0@, e.1@)) =~= Seq::<
                (Seq<char>, VersionView),
            >::empty());
        }
        return Some((out, i + 2));
    }
    proof {
        if i + 1 < v@.len() {
            assert(v@.skip(i as int)[1] == v@[i + 1]);
        }
        assert(!(v@.skip(i as int).len() >= 2 && v@.skip(i as int)[1] == '}'));
        assert(v@.skip(i as int).skip(1) =~= v@.skip(i as int + 1));
    }
    let mut acc: Vec<(String, Version)> = Vec::new();
    let mut p: usize = i + 1;
    loop
        invariant
            i + 1 <= p <= v@.len(),
            i < v@.len() && v@[i as int] == '{',
            !(v@.skip(i as int).len() >= 2 && v@.skip(i as int)[1] == '}'),
            v@.skip(i as int).skip(1) == v@.skip(i as int + 1),
            parse_versions_items(v@.skip(i as int + 1)) == (match parse_versions_items(
                v@.skip(p as int),
            ) {
                Some((l, n)) => Some(
                    (acc@.map_values(|e: (String, Version)| (e.0@, e.1@)) + l, n + p - i - 1),
                ),
                None => None::<(Seq<(Seq<char>, VersionView)>, int)>,
            }),
        decreases v@.len() - p,
    {
        match parse_version_entry_x(v, p) {
            None => {
                return None;
            },
            Some((e, j)) => {
                let ghost ev = (e.0@, e.1@);
                proof {
                    assert(v@.skip(p as int).skip(j - p as int) =~= v@.skip(j as int));
                }
                if j == v.len() {
                    proof {
                        assert(v@.skip(j as int).len() == 0);
                    }
                    return None;
                }
                let c = v[j];
                proof {
                    assert(v@.skip(j as int)[0] == c);
                }
                if c == ',' {
                    let ghost accv = acc@.map_values(|e: (String, Version)| (e.0@, e.1@));
                    acc.push(e);
                    proof {
                        assert(v@.skip(p as int).skip(j - p as int + 1) =~= v@.skip(
                            j as int + 1,
                        ));
                        assert(acc@.map_values(|e: (String, Version)| (e.0@, e.1@)) =~= accv.push(
                            ev,
                        ));
                        match parse_versions_items(v@.skip(j as int + 1)) {
                            Some((l, n)) => {
                                assert(parse_versions_items(v@.skip(p as int)) == Some(
                                    (seq![ev] + l, n + (j - p as int) + 1),
                                ));
                                assert(accv + (seq![ev] + l) =~= accv.push(ev) + l);
                            },
                            None => {},
                        }
                    }
                    p = j + 1;
                } else if c == '}' {
                    let ghost accv = acc@.map_values(|e: (String, Version)| (e.0@, e.1@));
                    acc.push(e);
                    proof {
                        assert(acc@.map_values(|e: (String, Version)| (e.0@, e.1@)) =~= accv.push(
                            ev,
                        ));
                        assert(parse_versions_items(v@.skip(p as int)) == Some(
                            (seq![ev], (j - p as int) + 1),
                        ));
                        assert(accv + seq![ev] =~= accv.push(ev));
                        assert(parse_versions_items(v@.skip(i as int + 1)) == Some(
                            (accv.push(ev), j + 1 - i - 1 as int),
                        ));
                    }
                    return Some((acc, j + 1));
                } else {
                    return None;
                }
            },
        }
    }
}

/// Parse one member of the index, starting at the package name.
#[verifier::rlimit(100)]
pub(crate) fn parse_index_entry_x(v: &Vec<char>, i: usize) -> (r: Option<(
    (String, Package),
    usize,
)>)
    requires
        i <= v@.len(),
    ensures
        r matches Some(t) ==> i <= t.1 <= v@.len() && parse_index_entry(v@.skip(i as int)) == Some(
            (((t.0).0@, (t.0).1@), t.1 - i as int),
        ),
        r is None ==> parse_index_entry(v@.skip(i as int)) is None,
{
    match parse_string(v, i) {
        None => None,
        Some((name, j)) => {
            proof {
                assert(v@.skip(i as int).skip(j - i as int) =~= v@.skip(j as int));
            }
            if j == v.len() {
                proof {
                    assert(v@.skip(j as int).len() == 0);
                }
                return None;
            }
            if v[j] != ':' {
                proof {
                    assert(v@.skip(j as int)[0] == v@[j as int]);
                }
                return None;
            }
            proof {
                assert(v@.skip(j as int)[0] == ':');
                assert(v@.skip(j as int).skip(1) =~= v@.skip(j + 1 as int));
            }
            let q = j + 1;
            if q == v.len() {
                proof {
                    assert(v@.skip(q as int).len() == 0);
                }
                return None;
            }
            if v[q] != '{' {
                proof {
                    assert(v@.skip(q as int)[0] == v@[q as int]);
                }
                return None;
            }
            proof {
                assert(v@.skip(q as int)[0] == '{');
                assert(v@.skip(q as int).skip(1) =~= v@.skip(q + 1 as int));
            }
            let (base, b1) = match parse_base_x(v, q + 1) {
                None => {
                    return None;
                },
                Some(t) => t,
            };
            proof {
                assert(v@.skip(q as int).skip(b1 - q as int) =~= v@.skip(b1 as int));
            }
            let b2 = match expect_lit(v, b1, ",\"versions\":") {
                None => {
                    return None;
                },
                Some(a) => a,
            };
            proof {
                assert(v@.skip(b1 as int).skip(",\"versions\":"@.len() as int) =~= v@.skip(
                    b2 as int,
                ));
            }
            let (versions, b3) = match parse_versions_x(v, b2) {
                None => {
                    return None;
                },
                Some(t) => t,
            };
            proof {
                assert(v@.skip(b1 as int).skip((",\"versions\":"@.len() + b3 - b2) as int)
                    =~= v@.skip(b3 as int));
            }
            let b4 = match expect_lit(v, b3, ",\"latest_version\":") {
                None => {
                    return None;
                },
                Some(a) => a,
            };
            proof {
                assert(v@.skip(b3 as int).skip(",\"latest_version\":"@.len() as int) =~= v@.skip(
                    b4 as int,
                ));
            }
            let (latest_version, b5) = match parse_string(v, b4) {
                None => {
                    return None;
                },
                Some(t) => t,
            };
            proof {
                assert(v@.skip(b3 as int).skip(
                    (",\"latest_version\":"@.len() + b5 - b4) as int,
                ) =~= v@.skip(b5 as int));
            }
            if b5 == v.len() {
                proof {
                    assert(v@.skip(b5 as int).len() == 0);
                }
                return None;
            }
            if v[b5] != '}' {
                proof {
                    assert(v@.skip(b5 as int)[0] == v@[b5 as int]);
                }
                return None;
            }
            proof {
                assert(v@.skip(b5 as int)[0] == '}');
                assert(v@.skip(b5 as int).len() > 0);
            }
            let pkg = Package { manifest: base, versions, latest_version };
            proof {
                assert(parse_ipkg_obj(v@.skip(q as int)) == Some((pkg@, b5 + 1 - q as int)));
            }
            Some(((name, pkg), b5 + 1))
        },
    }
}

/// Parse a whole index object, braces included.
#[verifier::rlimit(100)]
pub(crate) fn parse_index_obj_x(v: &Vec<char>, i: usize) -> (r: Option<(
    Vec<(String, Package)>,
    usize,
)>)
    requires
        i <= v@.len(),
    ensures
        r matches Some(t) ==> i <= t.1 <= v@.len() && parse_index_obj(v@.skip(i as int)) == Some(
            (t.0@.map_values(|e: (String, Package)| (e.0@, e.1@)), t.1 - i as int),
        ),
        r is None ==> parse_index_obj(v@.skip(i as int)) is None,
{
    if i == v.len() || v[i] != '{' {
        return None;
    }
    proof {
        assert(v@.skip(i as int)[0] == '{');
    }
    if i + 1 < v.len() && v[i + 1] == '}' {
        let out: Vec<(String, Package)> = Vec::new();
        proof {
            assert(v@.skip(i as int)[1] == '}');
            assert(out@.map_values(|e: (String, Package)| (e.0@, e.1@)) =~= Seq::<
                (Seq<char>, IndexPackageView),
            >::empty());
        }
        return Some((out, i + 2));
    }
    proof {
        if i + 1 < v@.len() {
            assert(v@.skip(i as int)[1] == v@[i + 1]);
        }
        assert(!(v@.skip(i as int).len() >= 2 && v@.skip(i as int)[1] == '}'));
        assert(v@.skip(i as int).skip(1) =~= v@.skip(i as int + 1));
    }
    let mut acc: Vec<(String, Package)> = Vec::new();
    let mut p: usize = i + 1;
    loop
        invariant
            i + 1 <= p <= v@.len(),
            i < v@.len() && v@[i as int] == '{',
            !(v@.skip(i as int).len() >= 2 && v@.skip(i as int)[1] == '}'),
            v@.skip(i as int).skip(1) == v@.skip(i as int + 1),
            parse_index_items(v@.skip(i as int + 1)) == (match parse_index_items(
                v@.skip(p as int),
            ) {
                Some((l, n)) => Some(
                    (acc@.map_values(|e: (String, Package)| (e.0@, e.1@)) + l, n + p - i - 1),
                ),
                None => None::<(Seq<(Seq<char>, IndexPackageView)>, int)>,
            }),
        decreases v@.len() - p,
    {
        match parse_index_entry_x(v, p) {
            None => {
                return None;
            },
            Some((e, j)) => {
                let ghost ev = (e.0@, e.1@);
                proof {
                    assert(v@.skip(p as int).skip(j - p as int) =~= v@.skip(j as int));
                }
                if j == v.len() {
                    proof {
                        assert(v@.skip(j as int).len() == 0);
                    }
                    return None;
                }
                let c = v[j];
                proof {
                    assert(v@.skip(j as int)[0] == c);
                }
                if c == ',' {
                    let ghost accv = acc@.map_values(|e: (String, Package)| (e.0@, e.1@));
                    acc.push(e);
                    proof {
                        assert(v@.skip(p as int).skip(j - p as int + 1) =~= v@.skip(
                            j as int + 1,
                        ));
                        assert(acc@.map_values(|e: (String, Package)| (e.0@, e.1@)) =~= accv.push(
                            ev,
                        ));
                        match parse_index_items(v@.skip(j as int + 1)) {
                            Some((l, n)) => {
                                assert(parse_index_items(v@.skip(p as int)) == Some(
                                    (seq![ev] + l, n + (j - p as int) + 1),
                                ));
                                assert(accv + (seq![ev] + l) =~= accv.push(ev) + l);
                            },
                            None => {},
                        }
                    }
                    p = j + 1;
                } else if c == '}' {
                    let ghost accv = acc@.map_values(|e: (String, Package)| (e.0@, e.1@));
                    acc.push(e);
                    proof {
                        assert(acc@.map_values(|e: (String, Package)| (e.0@, e.1@)) =~= accv.push(
                            ev,
                        ));
                        assert(parse_index_items(v@.skip(p as int)) == Some(
                            (seq![ev], (j - p as int) + 1),
                        ));
                        assert(accv + seq![ev] =~= accv.push(ev));
                        assert(parse_index_items(v@.skip(i as int + 1)) == Some(
                            (accv.push(ev), j + 1 - i - 1 as int),
                        ));
                    }
                    return Some((acc, j + 1));
                } else {
                    return None;
                }
            },
        }
    }
}

impl Index {
    /// Read an index back from its canonical text. A missing file is not this
    /// function's business; a malformed text is corrupt.
    pub fn from_text(s: &str) -> (r: Result<Index, Error>)
        ensures
            r matches Ok(ix) ==> parse_index_json(s@) == Some(ix@),
            r is Err ==> parse_index_json(s@) is None,
            r matches Err(e) ==> e is DeserializeIndex,
    {
        let v = str_to_chars(s);
        proof {
            assert(v@.skip(0) =~= v@);
        }
        match parse_index_obj_x(&v, 0) {
            None => Err(Error::DeserializeIndex),
            Some((entries, j)) => {
                if j == v.len() {
                    let ix = Index { entries };
                    Ok(ix)
                } else {
                    Err(Error::DeserializeIndex)
                }
            },
        }
    }

    /// Load the persisted index: where no index file exists the index is
    /// empty; an existing file's text must parse, else it is corrupt.
    pub fn load(existing: Option<&str>) -> (r: Result<Index, Error>)
        ensures
            existing is None ==> (r matches Ok(ix) && ix@ == Seq::<
                (Seq<char>, IndexPackageView),
            >::empty()),
            existing matches Some(t) ==> (match r {
                Ok(ix) => parse_index_json(t@) == Some(ix@),
                Err(e) => parse_index_json(t@) is None && e is DeserializeIndex,
            }),
    {
        match existing {
            None => Ok(Index::new()),
            Some(t) => Index::from_text(t),
        }
    }
}

} // verus!
