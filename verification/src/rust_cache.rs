//! The pruning engine: which entries of a compiled-output tree and of a
//! package registry survive, given the packages the project currently
//! requires.
//!
//! Every function here decides over plain values — directory listings,
//! names, modification times — and returns the names to delete or the
//! directories to descend into. The thin binary around the crate reads
//! the directories, feeds the listings in, and carries the deletions
//! out, so one unremovable entry surfaces there as a fatal error.

use vstd::prelude::*;

use vstd::string::StringExecFns;

use crate::text::{from_chars, string_list_contains, to_chars};

verus! {

/// Seconds in one week: the staleness threshold for aged cache entries.
pub const ONE_WEEK_SECS: u64 = 604800;

/// An entry is outdated when at least one week has elapsed between its
/// last modification and the present moment.
pub fn is_outdated(mtime_seconds: i64, now_seconds: i64) -> (outdated: bool)
    ensures
        outdated <==> now_seconds - mtime_seconds >= ONE_WEEK_SECS,
{
    (now_seconds as i128) - (mtime_seconds as i128) >= ONE_WEEK_SECS as i128
}

/// One directory entry as the pruning rules see it.
pub struct EntryInfo {
    pub name: String,
    pub is_dir: bool,
    pub mtime_seconds: i64,
}

/// Mathematical model of an [`EntryInfo`].
pub struct EntryInfoV {
    pub name: Seq<char>,
    pub is_dir: bool,
    pub mtime_seconds: i64,
}

impl View for EntryInfo {
    type V = EntryInfoV;

    open spec fn view(&self) -> EntryInfoV {
        EntryInfoV { name: self.name@, is_dir: self.is_dir, mtime_seconds: self.mtime_seconds }
    }
}

impl DeepView for EntryInfo {
    type V = EntryInfoV;

    open spec fn deep_view(&self) -> EntryInfoV {
        self.view()
    }
}

// ---------------------------------------------------------------------
// Name manipulation
// ---------------------------------------------------------------------

/// Index of the last `-` in `s`, or -1 when there is none.
pub open spec fn rfind_dash(s: Seq<char>) -> int
    decreases s.len(),
{
    if s.len() == 0 {
        -1
    } else if s.last() == '-' {
        s.len() - 1
    } else {
        rfind_dash(s.drop_last())
    }
}

/// The comparison key of an artifact name: everything before the last
/// `-` (which separates the build tool's hash suffix), or the whole
/// name when it holds no `-`.
pub open spec fn strip_hash_suffix_spec(s: Seq<char>) -> Seq<char> {
    if rfind_dash(s) >= 0 {
        s.take(rfind_dash(s))
    } else {
        s
    }
}

/// Strip the trailing `-<hash>` segment from an artifact name; a name
/// without `-` is returned unchanged.
pub fn strip_hash_suffix(name: &String) -> (r: String)
    ensures
        r@ == strip_hash_suffix_spec(name@),
{
    let ghost s = name@;
    let mut chars = to_chars(name.as_str());
    let mut j: usize = chars.len();
    assert(s.take(j as int) =~= s);
    while j > 0
        invariant
            0 <= j <= s.len(),
            s == name@,
            chars@ == s,
            rfind_dash(s) == rfind_dash(s.take(j as int)),
        decreases j,
    {
        if chars[j - 1] == '-' {
            assert(s.take(j as int).last() == s[j - 1]);
            assert(rfind_dash(s) == j - 1);
            chars.truncate(j - 1);
            let r = from_chars(&chars);
            assert(r@ == s.take(j - 1));
            return r;
        }
        assert(s.take(j as int).drop_last() =~= s.take(j - 1));
        j = j - 1;
    }
    assert(s.take(0) =~= Seq::<char>::empty());
    assert(rfind_dash(s) == -1);
    name.clone()
}

/// `-` replaced by `_` throughout, as artifact file stems are named.
pub open spec fn replace_dash_spec(s: Seq<char>) -> Seq<char> {
    Seq::new(s.len(), |i: int| if s[i] == '-' { '_' } else { s[i] })
}

/// Replace every `-` in a package or target name with `_`.
pub fn replace_dash(name: &String) -> (r: String)
    ensures
        r@ == replace_dash_spec(name@),
{
    let ghost s = name@;
    let chars = to_chars(name.as_str());
    let mut out: Vec<char> = Vec::new();
    let mut i: usize = 0;
    while i < chars.len()
        invariant
            0 <= i <= s.len(),
            chars@ == s,
            out@ =~= replace_dash_spec(s).take(i as int),
        decreases chars.len() - i,
    {
        if chars[i] == '-' {
            out.push('_');
        } else {
            out.push(chars[i]);
        }
        assert(out@ =~= replace_dash_spec(s).take(i + 1));
        i = i + 1;
    }
    assert(out@ =~= replace_dash_spec(s));
    from_chars(&out)
}

/// Index of the last `/` in `s`, or -1 when there is none.
pub open spec fn rfind_slash(s: Seq<char>) -> int
    decreases s.len(),
{
    if s.len() == 0 {
        -1
    } else if s.last() == '/' {
        s.len() - 1
    } else {
        rfind_slash(s.drop_last())
    }
}

/// The directory containing a path: the part before the last `/`; a
/// root-level path keeps its single `/`; a bare file name maps to the
/// empty string.
pub open spec fn dir_name_spec(s: Seq<char>) -> Seq<char> {
    if rfind_slash(s) > 0 {
        s.take(rfind_slash(s))
    } else if rfind_slash(s) == 0 {
        seq!['/']
    } else {
        Seq::empty()
    }
}

/// Directory part of a path, with the final component removed.
pub fn dir_name(path: &str) -> (r: String)
    ensures
        r@ == dir_name_spec(path@),
{
    let ghost s = path@;
    let mut chars = to_chars(path);
    let mut j: usize = chars.len();
    assert(s.take(j as int) =~= s);
    while j > 0
        invariant
            0 <= j <= s.len(),
            s == path@,
            chars@ == s,
            rfind_slash(s) == rfind_slash(s.take(j as int)),
        decreases j,
    {
        if chars[j - 1] == '/' {
            assert(s.take(j as int).last() == s[j - 1]);
            assert(rfind_slash(s) == j - 1);
            if j - 1 == 0 {
                chars.truncate(1);
                let r = from_chars(&chars);
                assert(chars@ =~= seq!['/']);
                return r;
            }
            chars.truncate(j - 1);
            let r = from_chars(&chars);
            assert(r@ == s.take(j - 1));
            return r;
        }
        assert(s.take(j as int).drop_last() =~= s.take(j - 1));
        j = j - 1;
    }
    assert(s.take(0) =~= Seq::<char>::empty());
    assert(rfind_slash(s) == -1);
    chars.truncate(0);
    let r = from_chars(&chars);
    assert(r@ =~= Seq::<char>::empty());
    r
}

// ---------------------------------------------------------------------
// Keep-or-delete decisions
// ---------------------------------------------------------------------

/// Whether one entry falls to the prune: in staleness mode an entry at
/// least one week old goes, whatever its name; otherwise an entry goes
/// when its suffix-stripped name is not in the keep-set.
pub open spec fn entry_doomed_spec(
    e: EntryInfoV,
    keep: Seq<Seq<char>>,
    check_time_stamp: bool,
    now_seconds: i64,
) -> bool {
    if check_time_stamp {
        now_seconds - e.mtime_seconds >= ONE_WEEK_SECS
    } else {
        !keep.contains(strip_hash_suffix_spec(e.name))
    }
}

/// Names of the entries that a [`rm_except`] sweep deletes, in listing
/// order.
pub open spec fn rm_except_deletes(
    entries: Seq<EntryInfoV>,
    keep: Seq<Seq<char>>,
    check_time_stamp: bool,
    now_seconds: i64,
) -> Seq<Seq<char>>
    decreases entries.len(),
{
    if entries.len() == 0 {
        Seq::empty()
    } else {
        rm_except_deletes(entries.drop_last(), keep, check_time_stamp, now_seconds) + if entry_doomed_spec(
            entries.last(),
            keep,
            check_time_stamp,
            now_seconds,
        ) {
            seq![entries.last().name]
        } else {
            Seq::empty()
        }
    }
}

fn entry_doomed(e: &EntryInfo, keep: &Vec<String>, check_time_stamp: bool, now_seconds: i64) -> (r:
    bool)
    ensures
        r == entry_doomed_spec(e@, keep.deep_view(), check_time_stamp, now_seconds),
{
    if check_time_stamp {
        is_outdated(e.mtime_seconds, now_seconds)
    } else {
        let key = strip_hash_suffix(&e.name);
        !string_list_contains(keep, &key)
    }
}

/// Decide a directory sweep: every entry whose name survives the
/// keep-rule stays, every other entry's name is returned for deletion.
/// A missing directory (`None`) is no error and deletes nothing.
pub fn rm_except(
    entries: &Option<Vec<EntryInfo>>,
    keep: &Vec<String>,
    check_time_stamp: bool,
    now_seconds: i64,
) -> (doomed: Vec<String>)
    ensures
        match entries {
            None => doomed@.len() == 0,
            Some(es) => doomed.deep_view() == rm_except_deletes(
                es.deep_view(),
                keep.deep_view(),
                check_time_stamp,
                now_seconds,
            ),
        },
{
    let mut doomed: Vec<String> = Vec::new();
    match entries {
        None => doomed,
        Some(es) => {
            let ghost evs = es.deep_view();
            let mut i: usize = 0;
            assert(evs.take(0) =~= Seq::<EntryInfoV>::empty());
            while i < es.len()
                invariant
                    0 <= i <= es.len(),
                    evs == es.deep_view(),
                    evs.len() == es@.len(),
                    doomed.deep_view() =~= rm_except_deletes(
                        evs.take(i as int),
                        keep.deep_view(),
                        check_time_stamp,
                        now_seconds,
                    ),
                decreases es.len() - i,
            {
                assert(evs[i as int] == es@[i as int]@);
                let ghost before = doomed.deep_view();
                if entry_doomed(&es[i], keep, check_time_stamp, now_seconds) {
                    doomed.push(es[i].name.clone());
                    assert(doomed.deep_view() =~= before.push(evs[i as int].name));
                }
                assert(evs.take(i + 1).drop_last() =~= evs.take(i as int));
                assert(evs.take(i + 1).last() == evs[i as int]);
                i = i + 1;
            }
            assert(evs.take(i as int) =~= evs);
            doomed
        },
    }
}

/// Every doomed entry's name stands in the sweep's deletion list: in
/// name-matching mode exactly those entries whose suffix-stripped name
/// is not in the keep-set, in staleness mode exactly those at least one
/// week old, whatever their name.
pub proof fn lemma_sweep_deletes_doomed(
    entries: Seq<EntryInfoV>,
    keep: Seq<Seq<char>>,
    check_time_stamp: bool,
    now_seconds: i64,
    i: int,
)
    requires
        0 <= i < entries.len(),
        entry_doomed_spec(entries[i], keep, check_time_stamp, now_seconds),
    ensures
        rm_except_deletes(entries, keep, check_time_stamp, now_seconds).contains(entries[i].name),
    decreases entries.len(),
{
    let whole = rm_except_deletes(entries, keep, check_time_stamp, now_seconds);
    let prefix = rm_except_deletes(entries.drop_last(), keep, check_time_stamp, now_seconds);
    if i < entries.len() - 1 {
        lemma_sweep_deletes_doomed(entries.drop_last(), keep, check_time_stamp, now_seconds, i);
        let ix = prefix.lemma_contains_to_index(entries.drop_last()[i].name);
        assert(whole[ix] == entries[i].name);
    } else {
        assert(entries.last() == entries[i]);
        assert(whole[prefix.len() as int] == entries[i].name);
    }
}

/// Nothing else is deleted: every name in the deletion list is the name
/// of some listed entry that the keep-rule dooms.
pub proof fn lemma_sweep_spares_kept(
    entries: Seq<EntryInfoV>,
    keep: Seq<Seq<char>>,
    check_time_stamp: bool,
    now_seconds: i64,
    name: Seq<char>,
)
    requires
        rm_except_deletes(entries, keep, check_time_stamp, now_seconds).contains(name),
    ensures
        exists|i: int|
            0 <= i < entries.len() && #[trigger] entries[i].name == name && entry_doomed_spec(
                entries[i],
                keep,
                check_time_stamp,
                now_seconds,
            ),
    decreases entries.len(),
{
    let whole = rm_except_deletes(entries, keep, check_time_stamp, now_seconds);
    let prefix = rm_except_deletes(entries.drop_last(), keep, check_time_stamp, now_seconds);
    assert(entries.len() > 0);
    let k = whole.lemma_contains_to_index(name);
    if k < prefix.len() {
        assert(prefix[k] == name);
        lemma_sweep_spares_kept(entries.drop_last(), keep, check_time_stamp, now_seconds, name);
        let i = choose|i: int|
            0 <= i < entries.drop_last().len() && #[trigger] entries.drop_last()[i].name == name
                && entry_doomed_spec(entries.drop_last()[i], keep, check_time_stamp, now_seconds);
        assert(entries[i].name == name && entry_doomed_spec(
            entries[i],
            keep,
            check_time_stamp,
            now_seconds,
        ));
    } else {
        assert(entry_doomed_spec(entries.last(), keep, check_time_stamp, now_seconds));
        assert(name == entries.last().name);
        let j = entries.len() - 1;
        assert(entries[j].name == name && entry_doomed_spec(
            entries[j],
            keep,
            check_time_stamp,
            now_seconds,
        ));
    }
}

// ---------------------------------------------------------------------
// Package metadata
// ---------------------------------------------------------------------

/// One declared build target of a package, with its kind strings.
pub struct MetaTarget {
    pub kind: Vec<String>,
    pub name: String,
}

/// Mathematical model of a [`MetaTarget`].
pub struct MetaTargetV {
    pub kind: Seq<Seq<char>>,
    pub name: Seq<char>,
}

impl View for MetaTarget {
    type V = MetaTargetV;

    open spec fn view(&self) -> MetaTargetV {
        MetaTargetV { kind: self.kind.deep_view(), name: self.name@ }
    }
}

impl DeepView for MetaTarget {
    type V = MetaTargetV;

    open spec fn deep_view(&self) -> MetaTargetV {
        self.view()
    }
}

/// One package entry of the build tool's metadata document.
pub struct MetaPackage {
    pub name: String,
    pub version: String,
    pub manifest_path: String,
    pub targets: Vec<MetaTarget>,
}

/// Mathematical model of a [`MetaPackage`].
pub struct MetaPackageV {
    pub name: Seq<char>,
    pub version: Seq<char>,
    pub manifest_path: Seq<char>,
    pub targets: Seq<MetaTargetV>,
}

impl View for MetaPackage {
    type V = MetaPackageV;

    open spec fn view(&self) -> MetaPackageV {
        MetaPackageV {
            name: self.name@,
            version: self.version@,
            manifest_path: self.manifest_path@,
            targets: self.targets.deep_view(),
        }
    }
}

impl DeepView for MetaPackage {
    type V = MetaPackageV;

    open spec fn deep_view(&self) -> MetaPackageV {
        self.view()
    }
}

/// The package list of the build tool's metadata document.
pub struct Meta {
    pub packages: Vec<MetaPackage>,
}

impl View for Meta {
    type V = Seq<MetaPackageV>;

    open spec fn view(&self) -> Seq<MetaPackageV> {
        self.packages.deep_view()
    }
}

/// One external dependency, as the pruners consume it.
pub struct PackageDefinition {
    pub name: String,
    pub version: String,
    pub path: String,
    pub targets: Vec<String>,
}

/// Mathematical model of a [`PackageDefinition`].
pub struct PackageDefinitionV {
    pub name: Seq<char>,
    pub version: Seq<char>,
    pub path: Seq<char>,
    pub targets: Seq<Seq<char>>,
}

impl View for PackageDefinition {
    type V = PackageDefinitionV;

    open spec fn view(&self) -> PackageDefinitionV {
        PackageDefinitionV {
            name: self.name@,
            version: self.version@,
            path: self.path@,
            targets: self.targets.deep_view(),
        }
    }
}

impl DeepView for PackageDefinition {
    type V = PackageDefinitionV;

    open spec fn deep_view(&self) -> PackageDefinitionV {
        self.view()
    }
}

pub type Packages = Vec<PackageDefinition>;

pub open spec fn lib_kind() -> Seq<char> {
    seq!['l', 'i', 'b']
}

pub open spec fn proc_macro_kind() -> Seq<char> {
    seq!['p', 'r', 'o', 'c', '-', 'm', 'a', 'c', 'r', 'o']
}

/// A target contributes an on-disk artifact name stem only when one of
/// its kinds is `lib` or `proc-macro`.
pub open spec fn target_is_library(t: MetaTargetV) -> bool {
    t.kind.contains(lib_kind()) || t.kind.contains(proc_macro_kind())
}

/// Names of the library and proc-macro targets, in declaration order.
pub open spec fn library_target_names(ts: Seq<MetaTargetV>) -> Seq<Seq<char>>
    decreases ts.len(),
{
    if ts.len() == 0 {
        Seq::empty()
    } else {
        library_target_names(ts.drop_last()) + if target_is_library(ts.last()) {
            seq![ts.last().name]
        } else {
            Seq::empty()
        }
    }
}

pub open spec fn seq_starts_with(s: Seq<char>, prefix: Seq<char>) -> bool {
    prefix.len() <= s.len() && s.take(prefix.len() as int) == prefix
}

/// The dependency view of one metadata package.
pub open spec fn package_def_spec(p: MetaPackageV) -> PackageDefinitionV {
    PackageDefinitionV {
        name: p.name,
        version: p.version,
        path: dir_name_spec(p.manifest_path),
        targets: library_target_names(p.targets),
    }
}

/// The dependency list a metadata document resolves to: every package
/// in document order, except those whose manifest path lies under the
/// project root.
pub open spec fn resolve_packages_spec(pkgs: Seq<MetaPackageV>, root: Seq<char>) -> Seq<
    PackageDefinitionV,
>
    decreases pkgs.len(),
{
    if pkgs.len() == 0 {
        Seq::empty()
    } else {
        resolve_packages_spec(pkgs.drop_last(), root) + if seq_starts_with(
            pkgs.last().manifest_path,
            root,
        ) {
            Seq::empty()
        } else {
            seq![package_def_spec(pkgs.last())]
        }
    }
}

fn starts_with_chars(s: &String, prefix: &str) -> (r: bool)
    ensures
        r == seq_starts_with(s@, prefix@),
{
    let sc = to_chars(s.as_str());
    let pc = to_chars(prefix);
    if pc.len() > sc.len() {
        return false;
    }
    let mut i: usize = 0;
    while i < pc.len()
        invariant
            0 <= i <= pc.len(),
            pc.len() <= sc.len(),
            sc@ == s@,
            pc@ == prefix@,
            forall|j: int| 0 <= j < i ==> sc@[j] == pc@[j],
        decreases pc.len() - i,
    {
        if sc[i] != pc[i] {
            assert(s@.take(prefix@.len() as int)[i as int] != prefix@[i as int]);
            return false;
        }
        i = i + 1;
    }
    assert(s@.take(prefix@.len() as int) =~= prefix@);
    true
}

fn target_is_library_exec(t: &MetaTarget) -> (r: bool)
    ensures
        r == target_is_library(t@),
{
    let lib_s: String = <String as StringExecFns>::from_str("lib");
    let pm_s: String = <String as StringExecFns>::from_str("proc-macro");
    proof {
        reveal_strlit("lib");
        reveal_strlit("proc-macro");
        assert(lib_s@ =~= lib_kind());
        assert(pm_s@ =~= proc_macro_kind());
    }
    string_list_contains(&t.kind, &lib_s) || string_list_contains(&t.kind, &pm_s)
}

fn library_names(ts: &Vec<MetaTarget>) -> (v: Vec<String>)
    ensures
        v.deep_view() == library_target_names(ts.deep_view()),
{
    let ghost tvs = ts.deep_view();
    let mut v: Vec<String> = Vec::new();
    let mut i: usize = 0;
    assert(tvs.take(0) =~= Seq::<MetaTargetV>::empty());
    while i < ts.len()
        invariant
            0 <= i <= ts.len(),
            tvs == ts.deep_view(),
            tvs.len() == ts@.len(),
            v.deep_view() =~= library_target_names(tvs.take(i as int)),
        decreases ts.len() - i,
    {
        assert(tvs[i as int] == ts@[i as int]@);
        let ghost before = v.deep_view();
        if target_is_library_exec(&ts[i]) {
            v.push(ts[i].name.clone());
            assert(v.deep_view() =~= before.push(tvs[i as int].name));
        }
        assert(tvs.take(i + 1).drop_last() =~= tvs.take(i as int));
        assert(tvs.take(i + 1).last() == tvs[i as int]);
        i = i + 1;
    }
    assert(tvs.take(i as int) =~= tvs);
    v
}

/// Resolve the metadata document into the dependency list the pruners
/// consume.
pub trait GetPackages {
    fn get_packages(&self, root: &str) -> Result<Packages, crate::CacheError>;
}

impl Meta {
    /// Every package whose manifest lies outside the project root, in
    /// document order, reduced to name, version, manifest directory and
    /// library target names.
    pub fn resolve_packages(&self, root: &str) -> (r: Packages)
        ensures
            r.deep_view() == resolve_packages_spec(self@, root@),
    {
        let ghost pvs = self@;
        let mut out: Vec<PackageDefinition> = Vec::new();
        let mut i: usize = 0;
        assert(pvs.take(0) =~= Seq::<MetaPackageV>::empty());
        while i < self.packages.len()
            invariant
                0 <= i <= self.packages.len(),
                pvs == self@,
                pvs == self.packages.deep_view(),
                pvs.len() == self.packages@.len(),
                out.deep_view() =~= resolve_packages_spec(pvs.take(i as int), root@),
            decreases self.packages.len() - i,
        {
            assert(pvs[i as int] == self.packages@[i as int]@);
            let ghost before = out.deep_view();
            let p = &self.packages[i];
            if !starts_with_chars(&p.manifest_path, root) {
                let def = PackageDefinition {
                    name: p.name.clone(),
                    version: p.version.clone(),
                    path: dir_name(p.manifest_path.as_str()),
                    targets: library_names(&p.targets),
                };
                assert(def@ == package_def_spec(pvs[i as int]));
                out.push(def);
                assert(out.deep_view() =~= before.push(package_def_spec(pvs[i as int])));
            }
            assert(pvs.take(i + 1).drop_last() =~= pvs.take(i as int));
            assert(pvs.take(i + 1).last() == pvs[i as int]);
            i = i + 1;
        }
        assert(pvs.take(i as int) =~= pvs);
        out
    }
}

impl GetPackages for Meta {
    fn get_packages(&self, root: &str) -> Result<Packages, crate::CacheError> {
        Ok(self.resolve_packages(root))
    }
}

/// No resolved package stems from a manifest under the project root:
/// each one mirrors some document entry whose manifest lies outside it.
pub proof fn lemma_workspace_excluded(pkgs: Seq<MetaPackageV>, root: Seq<char>, j: int)
    requires
        0 <= j < resolve_packages_spec(pkgs, root).len(),
    ensures
        exists|k: int|
            0 <= k < pkgs.len() && !seq_starts_with(#[trigger] pkgs[k].manifest_path, root)
                && resolve_packages_spec(pkgs, root)[j] == package_def_spec(pkgs[k]),
    decreases pkgs.len(),
{
    let r = resolve_packages_spec(pkgs, root);
    let prefix = resolve_packages_spec(pkgs.drop_last(), root);
    if j < prefix.len() {
        lemma_workspace_excluded(pkgs.drop_last(), root, j);
        let k = choose|k: int|
            0 <= k < pkgs.drop_last().len() && !seq_starts_with(
                #[trigger] pkgs.drop_last()[k].manifest_path,
                root,
            ) && prefix[j] == package_def_spec(pkgs.drop_last()[k]);
        assert(pkgs.drop_last()[k] == pkgs[k]);
        assert(r[j] == prefix[j]);
        assert(!seq_starts_with(pkgs[k].manifest_path, root) && r[j] == package_def_spec(pkgs[k]));
    } else {
        assert(!seq_starts_with(pkgs.last().manifest_path, root));
        assert(r[j] == package_def_spec(pkgs.last()));
        assert(pkgs.last() == pkgs[pkgs.len() - 1]);
        assert(!seq_starts_with(pkgs[pkgs.len() - 1].manifest_path, root) && r[j]
            == package_def_spec(pkgs[pkgs.len() - 1]));
    }
}

// ---------------------------------------------------------------------
// Keep-sets
// ---------------------------------------------------------------------

/// The keep-set of the `build` and `.fingerprint` subdirectories: the
/// bare package names.
pub open spec fn package_names_spec(ps: Seq<PackageDefinitionV>) -> Seq<Seq<char>>
    decreases ps.len(),
{
    if ps.len() == 0 {
        Seq::empty()
    } else {
        package_names_spec(ps.drop_last()) + seq![ps.last().name]
    }
}

/// The names of the given packages, in order.
pub fn package_names(packages: &Packages) -> (v: Vec<String>)
    ensures
        v.deep_view() == package_names_spec(packages.deep_view()),
{
    let ghost pvs = packages.deep_view();
    let mut v: Vec<String> = Vec::new();
    let mut i: usize = 0;
    assert(pvs.take(0) =~= Seq::<PackageDefinitionV>::empty());
    while i < packages.len()
        invariant
            0 <= i <= packages.len(),
            pvs == packages.deep_view(),
            pvs.len() == packages@.len(),
            v.deep_view() =~= package_names_spec(pvs.take(i as int)),
        decreases packages.len() - i,
    {
        assert(pvs[i as int] == packages@[i as int]@);
        let ghost before = v.deep_view();
        v.push(packages[i].name.clone());
        assert(v.deep_view() =~= before.push(pvs[i as int].name));
        assert(pvs.take(i + 1).drop_last() =~= pvs.take(i as int));
        assert(pvs.take(i + 1).last() == pvs[i as int]);
        i = i + 1;
    }
    assert(pvs.take(i as int) =~= pvs);
    v
}

pub open spec fn lib_prefixed(n: Seq<char>) -> Seq<char> {
    seq!['l', 'i', 'b'] + n
}

/// The two deps keep-keys one name contributes: the name with `-`
/// replaced by `_`, and the same prefixed with `lib`.
pub open spec fn dep_keys_of_name(n: Seq<char>) -> Seq<Seq<char>> {
    seq![replace_dash_spec(n), lib_prefixed(replace_dash_spec(n))]
}

pub open spec fn dep_keys_of_names(names: Seq<Seq<char>>) -> Seq<Seq<char>>
    decreases names.len(),
{
    if names.len() == 0 {
        Seq::empty()
    } else {
        dep_keys_of_names(names.drop_last()) + dep_keys_of_name(names.last())
    }
}

/// The deps keep-keys of one package: those of every library target
/// name, then those of the package's own name.
pub open spec fn dep_keys_of_package(p: PackageDefinitionV) -> Seq<Seq<char>> {
    dep_keys_of_names(p.targets.push(p.name))
}

/// The keep-set of the `deps` subdirectory.
pub open spec fn deps_keep_spec(ps: Seq<PackageDefinitionV>) -> Seq<Seq<char>>
    decreases ps.len(),
{
    if ps.len() == 0 {
        Seq::empty()
    } else {
        deps_keep_spec(ps.drop_last()) + dep_keys_of_package(ps.last())
    }
}

fn push_dep_keys(out: &mut Vec<String>, n: &String)
    ensures
        final(out).deep_view() == old(out).deep_view() + dep_keys_of_name(n@),
{
    let ghost before = out.deep_view();
    let replaced = replace_dash(n);
    out.push(replaced.clone());
    let lib_name: String = <String as StringExecFns>::from_str("lib").concat(replaced.as_str());
    proof {
        reveal_strlit("lib");
        assert(lib_name@ =~= lib_prefixed(replace_dash_spec(n@)));
    }
    out.push(lib_name);
    assert(out.deep_view() =~= before + dep_keys_of_name(n@));
}

/// The deps keep-set: for every package, the normalized names of its
/// library targets and of the package itself, each also `lib`-prefixed.
pub fn deps_keep_names(packages: &Packages) -> (v: Vec<String>)
    ensures
        v.deep_view() == deps_keep_spec(packages.deep_view()),
{
    let ghost pvs = packages.deep_view();
    let mut v: Vec<String> = Vec::new();
    let mut i: usize = 0;
    assert(pvs.take(0) =~= Seq::<PackageDefinitionV>::empty());
    while i < packages.len()
        invariant
            0 <= i <= packages.len(),
            pvs == packages.deep_view(),
            pvs.len() == packages@.len(),
            v.deep_view() =~= deps_keep_spec(pvs.take(i as int)),
        decreases packages.len() - i,
    {
        assert(pvs[i as int] == packages@[i as int]@);
        let p = &packages[i];
        let ghost names = pvs[i as int].targets.push(pvs[i as int].name);
        let ghost base = v.deep_view();
        let mut j: usize = 0;
        assert(names.take(0) =~= Seq::<Seq<char>>::empty());
        while j < p.targets.len()
            invariant
                0 <= j <= p.targets.len(),
                pvs == packages.deep_view(),
                pvs.len() == packages@.len(),
                0 <= i < packages.len(),
                p == &packages@[i as int],
                names == pvs[i as int].targets.push(pvs[i as int].name),
                names.len() == p.targets@.len() + 1,
                v.deep_view() =~= base + dep_keys_of_names(names.take(j as int)),
            decreases p.targets.len() - j,
        {
            assert(names[j as int] == p.targets@[j as int]@);
            push_dep_keys(&mut v, &p.targets[j]);
            assert(names.take(j + 1).drop_last() =~= names.take(j as int));
            assert(names.take(j + 1).last() == names[j as int]);
            j = j + 1;
        }
        assert(names[names.len() - 1] == pvs[i as int].name);
        push_dep_keys(&mut v, &p.name);
        assert(names.take(names.len() as int).drop_last() =~= names.take(names.len() - 1));
        assert(names.take(names.len() as int) =~= names);
        assert(v.deep_view() =~= base + dep_keys_of_names(names));
        assert(pvs.take(i + 1).drop_last() =~= pvs.take(i as int));
        assert(pvs.take(i + 1).last() == pvs[i as int]);
        i = i + 1;
    }
    assert(pvs.take(i as int) =~= pvs);
    v
}

/// Every package's normalized name and `lib`-prefixed normalized name
/// stand in the deps keep-set, and likewise for each library target.
pub proof fn lemma_dep_keys_of_names_covers(names: Seq<Seq<char>>, k: int)
    requires
        0 <= k < names.len(),
    ensures
        dep_keys_of_names(names).contains(replace_dash_spec(names[k])),
        dep_keys_of_names(names).contains(lib_prefixed(replace_dash_spec(names[k]))),
    decreases names.len(),
{
    let whole = dep_keys_of_names(names);
    let prefix = dep_keys_of_names(names.drop_last());
    if k < names.len() - 1 {
        lemma_dep_keys_of_names_covers(names.drop_last(), k);
        assert(names.drop_last()[k] == names[k]);
        let x = replace_dash_spec(names[k]);
        let y = lib_prefixed(replace_dash_spec(names[k]));
        let ix = prefix.lemma_contains_to_index(x);
        assert(whole[ix] == x);
        let iy = prefix.lemma_contains_to_index(y);
        assert(whole[iy] == y);
    } else {
        assert(names.last() == names[k]);
        assert(whole[prefix.len() as int] == replace_dash_spec(names[k]));
        assert(whole[prefix.len() as int + 1] == lib_prefixed(replace_dash_spec(names[k])));
    }
}

/// The deps keep-set covers, for every package, the keys of its own
/// name and of each of its library target names.
pub proof fn lemma_deps_keep_covers(ps: Seq<PackageDefinitionV>, i: int, n: Seq<char>)
    requires
        0 <= i < ps.len(),
        ps[i].targets.push(ps[i].name).contains(n),
    ensures
        deps_keep_spec(ps).contains(replace_dash_spec(n)),
        deps_keep_spec(ps).contains(lib_prefixed(replace_dash_spec(n))),
    decreases ps.len(),
{
    let whole = deps_keep_spec(ps);
    let prefix = deps_keep_spec(ps.drop_last());
    if i < ps.len() - 1 {
        lemma_deps_keep_covers(ps.drop_last(), i, n);
        let x = replace_dash_spec(n);
        let y = lib_prefixed(replace_dash_spec(n));
        let ix = prefix.lemma_contains_to_index(x);
        assert(whole[ix] == x);
        let iy = prefix.lemma_contains_to_index(y);
        assert(whole[iy] == y);
    } else {
        assert(ps.last() == ps[i]);
        let names = ps[i].targets.push(ps[i].name);
        let k = names.lemma_contains_to_index(n);
        lemma_dep_keys_of_names_covers(names, k);
        let tail = dep_keys_of_names(names);
        let x = replace_dash_spec(n);
        let y = lib_prefixed(replace_dash_spec(n));
        let ix = tail.lemma_contains_to_index(x);
        assert(whole[prefix.len() + ix] == x);
        let iy = tail.lemma_contains_to_index(y);
        assert(whole[prefix.len() + iy] == y);
    }
}

// ---------------------------------------------------------------------
// Profile directory pruning
// ---------------------------------------------------------------------

/// The three subdirectories a profile directory keeps.
pub open spec fn profile_keep_spec() -> Seq<Seq<char>> {
    seq![
        seq!['b', 'u', 'i', 'l', 'd'],
        seq!['.', 'f', 'i', 'n', 'g', 'e', 'r', 'p', 'r', 'i', 'n', 't'],
        seq!['d', 'e', 'p', 's'],
    ]
}

fn profile_keep_strings() -> (v: Vec<String>)
    ensures
        v.deep_view() == profile_keep_spec(),
{
    let mut v: Vec<String> = Vec::new();
    let b: String = <String as StringExecFns>::from_str("build");
    let f: String = <String as StringExecFns>::from_str(".fingerprint");
    let d: String = <String as StringExecFns>::from_str("deps");
    proof {
        reveal_strlit("build");
        reveal_strlit(".fingerprint");
        reveal_strlit("deps");
        assert(b@ =~= profile_keep_spec()[0]);
        assert(f@ =~= profile_keep_spec()[1]);
        assert(d@ =~= profile_keep_spec()[2]);
    }
    v.push(b);
    v.push(f);
    v.push(d);
    assert(v.deep_view() =~= profile_keep_spec());
    v
}

/// The listings a profile-directory prune decides over. A `None` field
/// stands for a directory that does not exist, which is no error.
pub struct ProfileListing {
    pub profile_entries: Option<Vec<EntryInfo>>,
    pub build_entries: Option<Vec<EntryInfo>>,
    pub fingerprint_entries: Option<Vec<EntryInfo>>,
    pub deps_entries: Option<Vec<EntryInfo>>,
}

/// The names a profile-directory prune deletes, per subdirectory.
pub struct ProfilePlan {
    pub profile_doomed: Vec<String>,
    pub build_doomed: Vec<String>,
    pub fingerprint_doomed: Vec<String>,
    pub deps_doomed: Vec<String>,
}

/// What one sweep deletes: nothing for a missing directory, else the
/// [`rm_except_deletes`] of its listing.
pub open spec fn sweep_result(
    entries: Option<Vec<EntryInfo>>,
    keep: Seq<Seq<char>>,
    check_time_stamp: bool,
    now_seconds: i64,
) -> Seq<Seq<char>> {
    match entries {
        None => Seq::empty(),
        Some(es) => rm_except_deletes(es.deep_view(), keep, check_time_stamp, now_seconds),
    }
}

/// Decide a profile directory prune: keep only `build`, `.fingerprint`
/// and `deps` at the top (never by staleness); inside `build` and
/// `.fingerprint` keep entries whose stripped name is a package name;
/// inside `deps` keep entries whose stripped name is a deps keep-key.
pub fn clean_profile_target(
    listing: &ProfileListing,
    packages: &Packages,
    check_time_stamp: bool,
    now_seconds: i64,
) -> (plan: ProfilePlan)
    ensures
        plan.profile_doomed.deep_view() == sweep_result(
            listing.profile_entries,
            profile_keep_spec(),
            false,
            now_seconds,
        ),
        plan.build_doomed.deep_view() == sweep_result(
            listing.build_entries,
            package_names_spec(packages.deep_view()),
            check_time_stamp,
            now_seconds,
        ),
        plan.fingerprint_doomed.deep_view() == sweep_result(
            listing.fingerprint_entries,
            package_names_spec(packages.deep_view()),
            check_time_stamp,
            now_seconds,
        ),
        plan.deps_doomed.deep_view() == sweep_result(
            listing.deps_entries,
            deps_keep_spec(packages.deep_view()),
            check_time_stamp,
            now_seconds,
        ),
{
    let keep_profile = profile_keep_strings();
    let profile_doomed = rm_except(&listing.profile_entries, &keep_profile, false, now_seconds);
    assert(profile_doomed.deep_view() =~= sweep_result(
        listing.profile_entries,
        profile_keep_spec(),
        false,
        now_seconds,
    ));
    let keep_pkg = package_names(packages);
    let build_doomed = rm_except(
        &listing.build_entries,
        &keep_pkg,
        check_time_stamp,
        now_seconds,
    );
    assert(build_doomed.deep_view() =~= sweep_result(
        listing.build_entries,
        package_names_spec(packages.deep_view()),
        check_time_stamp,
        now_seconds,
    ));
    let fingerprint_doomed = rm_except(
        &listing.fingerprint_entries,
        &keep_pkg,
        check_time_stamp,
        now_seconds,
    );
    assert(fingerprint_doomed.deep_view() =~= sweep_result(
        listing.fingerprint_entries,
        package_names_spec(packages.deep_view()),
        check_time_stamp,
        now_seconds,
    ));
    let keep_deps = deps_keep_names(packages);
    let deps_doomed = rm_except(&listing.deps_entries, &keep_deps, check_time_stamp, now_seconds);
    assert(deps_doomed.deep_view() =~= sweep_result(
        listing.deps_entries,
        deps_keep_spec(packages.deep_view()),
        check_time_stamp,
        now_seconds,
    ));
    ProfilePlan { profile_doomed, build_doomed, fingerprint_doomed, deps_doomed }
}

// ---------------------------------------------------------------------
// Top-level output tree pruning
// ---------------------------------------------------------------------

/// One entry of a top-level output directory, with the two nested-root
/// marker facts a prune decision needs.
pub struct TargetEntry {
    pub name: String,
    pub is_dir: bool,
    pub has_cachedir_tag: bool,
    pub has_rustc_info: bool,
}

/// Mathematical model of a [`TargetEntry`].
pub struct TargetEntryV {
    pub name: Seq<char>,
    pub is_dir: bool,
    pub has_cachedir_tag: bool,
    pub has_rustc_info: bool,
}

impl View for TargetEntry {
    type V = TargetEntryV;

    open spec fn view(&self) -> TargetEntryV {
        TargetEntryV {
            name: self.name@,
            is_dir: self.is_dir,
            has_cachedir_tag: self.has_cachedir_tag,
            has_rustc_info: self.has_rustc_info,
        }
    }
}

impl DeepView for TargetEntry {
    type V = TargetEntryV;

    open spec fn deep_view(&self) -> TargetEntryV {
        self.view()
    }
}

/// What a top-level prune does with one entry.
#[derive(Clone, Copy, Debug, PartialEq, Eq, Structural)]
pub enum TargetEntryAction {
    /// Descend treating the directory as a fresh output tree root.
    RecurseAsRoot,
    /// Descend treating the directory as a profile directory.
    RecurseAsProfile,
    /// Delete the file.
    Delete,
    /// Leave the file in place.
    Keep,
}

pub open spec fn cachedir_tag_name() -> Seq<char> {
    seq!['C', 'A', 'C', 'H', 'E', 'D', 'I', 'R', '.', 'T', 'A', 'G']
}

/// A directory holding either marker file is itself a nested output
/// root; any other directory is a profile directory; files are deleted
/// except the cache-directory tag file itself.
pub open spec fn classify_target_entry_spec(e: TargetEntryV) -> TargetEntryAction {
    if e.is_dir {
        if e.has_cachedir_tag || e.has_rustc_info {
            TargetEntryAction::RecurseAsRoot
        } else {
            TargetEntryAction::RecurseAsProfile
        }
    } else if e.name == cachedir_tag_name() {
        TargetEntryAction::Keep
    } else {
        TargetEntryAction::Delete
    }
}

/// Decide what a top-level prune does with one directory entry.
pub fn classify_target_entry(e: &TargetEntry) -> (a: TargetEntryAction)
    ensures
        a == classify_target_entry_spec(e@),
{
    if e.is_dir {
        if e.has_cachedir_tag || e.has_rustc_info {
            TargetEntryAction::RecurseAsRoot
        } else {
            TargetEntryAction::RecurseAsProfile
        }
    } else {
        let tag: String = <String as StringExecFns>::from_str("CACHEDIR.TAG");
        proof {
            reveal_strlit("CACHEDIR.TAG");
            assert(tag@ =~= cachedir_tag_name());
        }
        if e.name.eq(&tag) {
            TargetEntryAction::Keep
        } else {
            TargetEntryAction::Delete
        }
    }
}

pub open spec fn target_doomed_spec(es: Seq<TargetEntryV>) -> Seq<Seq<char>>
    decreases es.len(),
{
    if es.len() == 0 {
        Seq::empty()
    } else {
        target_doomed_spec(es.drop_last()) + if classify_target_entry_spec(es.last())
            == TargetEntryAction::Delete {
            seq![es.last().name]
        } else {
            Seq::empty()
        }
    }
}

pub open spec fn nested_roots_spec(es: Seq<TargetEntryV>) -> Seq<Seq<char>>
    decreases es.len(),
{
    if es.len() == 0 {
        Seq::empty()
    } else {
        nested_roots_spec(es.drop_last()) + if classify_target_entry_spec(es.last())
            == TargetEntryAction::RecurseAsRoot {
            seq![es.last().name]
        } else {
            Seq::empty()
        }
    }
}

pub open spec fn profile_dirs_spec(es: Seq<TargetEntryV>) -> Seq<Seq<char>>
    decreases es.len(),
{
    if es.len() == 0 {
        Seq::empty()
    } else {
        profile_dirs_spec(es.drop_last()) + if classify_target_entry_spec(es.last())
            == TargetEntryAction::RecurseAsProfile {
            seq![es.last().name]
        } else {
            Seq::empty()
        }
    }
}

/// What a top-level prune of one directory listing does: stray files to
/// delete, nested output roots to reenter from the top, and profile
/// directories to prune by the profile rules.
pub struct TargetPlan {
    pub doomed: Vec<String>,
    pub nested_roots: Vec<String>,
    pub profile_dirs: Vec<String>,
}

/// Decide a top-level output tree prune over one directory listing.
pub fn clean_target_dir(entries: &Vec<TargetEntry>) -> (plan: TargetPlan)
    ensures
        plan.doomed.deep_view() == target_doomed_spec(entries.deep_view()),
        plan.nested_roots.deep_view() == nested_roots_spec(entries.deep_view()),
        plan.profile_dirs.deep_view() == profile_dirs_spec(entries.deep_view()),
{
    let ghost evs = entries.deep_view();
    let mut doomed: Vec<String> = Vec::new();
    let mut nested_roots: Vec<String> = Vec::new();
    let mut profile_dirs: Vec<String> = Vec::new();
    let mut i: usize = 0;
    assert(evs.take(0) =~= Seq::<TargetEntryV>::empty());
    while i < entries.len()
        invariant
            0 <= i <= entries.len(),
            evs == entries.deep_view(),
            evs.len() == entries@.len(),
            doomed.deep_view() =~= target_doomed_spec(evs.take(i as int)),
            nested_roots.deep_view() =~= nested_roots_spec(evs.take(i as int)),
            profile_dirs.deep_view() =~= profile_dirs_spec(evs.take(i as int)),
        decreases entries.len() - i,
    {
        assert(evs[i as int] == entries@[i as int]@);
        let ghost db = doomed.deep_view();
        let ghost nb = nested_roots.deep_view();
        let ghost pb = profile_dirs.deep_view();
        match classify_target_entry(&entries[i]) {
            TargetEntryAction::RecurseAsRoot => {
                nested_roots.push(entries[i].name.clone());
                assert(nested_roots.deep_view() =~= nb.push(evs[i as int].name));
            },
            TargetEntryAction::RecurseAsProfile => {
                profile_dirs.push(entries[i].name.clone());
                assert(profile_dirs.deep_view() =~= pb.push(evs[i as int].name));
            },
            TargetEntryAction::Delete => {
                doomed.push(entries[i].name.clone());
                assert(doomed.deep_view() =~= db.push(evs[i as int].name));
            },
            TargetEntryAction::Keep => {},
        }
        assert(evs.take(i + 1).drop_last() =~= evs.take(i as int));
        assert(evs.take(i + 1).last() == evs[i as int]);
        i = i + 1;
    }
    assert(evs.take(i as int) =~= evs);
    TargetPlan { doomed, nested_roots, profile_dirs }
}

// ---------------------------------------------------------------------
// Registry pruning
// ---------------------------------------------------------------------

/// One entry of the registry's `index` directory, with the fact whether
/// it holds a version-control marker directory.
pub struct IndexEntry {
    pub name: String,
    pub is_dir: bool,
    pub has_git: bool,
}

/// Mathematical model of an [`IndexEntry`].
pub struct IndexEntryV {
    pub name: Seq<char>,
    pub is_dir: bool,
    pub has_git: bool,
}

impl View for IndexEntry {
    type V = IndexEntryV;

    open spec fn view(&self) -> IndexEntryV {
        IndexEntryV { name: self.name@, is_dir: self.is_dir, has_git: self.has_git }
    }
}

impl DeepView for IndexEntry {
    type V = IndexEntryV;

    open spec fn deep_view(&self) -> IndexEntryV {
        self.view()
    }
}

/// One source subdirectory of the registry's `cache` directory, with
/// its own listing.
pub struct CacheSourceDir {
    pub name: String,
    pub entries: Vec<EntryInfo>,
}

/// Mathematical model of a [`CacheSourceDir`].
pub struct CacheSourceDirV {
    pub name: Seq<char>,
    pub entries: Seq<EntryInfoV>,
}

impl View for CacheSourceDir {
    type V = CacheSourceDirV;

    open spec fn view(&self) -> CacheSourceDirV {
        CacheSourceDirV { name: self.name@, entries: self.entries.deep_view() }
    }
}

impl DeepView for CacheSourceDir {
    type V = CacheSourceDirV;

    open spec fn deep_view(&self) -> CacheSourceDirV {
        self.view()
    }
}

/// The index subdirectories whose `.cache` is deleted: exactly the
/// git-backed ones, whose content the version-control data recreates.
pub open spec fn index_cache_doomed_spec(es: Seq<IndexEntryV>) -> Seq<Seq<char>>
    decreases es.len(),
{
    if es.len() == 0 {
        Seq::empty()
    } else {
        index_cache_doomed_spec(es.drop_last()) + if es.last().is_dir && es.last().has_git {
            seq![es.last().name]
        } else {
            Seq::empty()
        }
    }
}

/// The archive file name a package pins in the registry cache.
pub open spec fn crate_file_name_spec(p: PackageDefinitionV) -> Seq<char> {
    p.name + seq!['-'] + p.version + seq!['.', 'c', 'r', 'a', 't', 'e']
}

/// The archive keep-set: one file name per package.
pub open spec fn crate_keep_spec(ps: Seq<PackageDefinitionV>) -> Seq<Seq<char>>
    decreases ps.len(),
{
    if ps.len() == 0 {
        Seq::empty()
    } else {
        crate_keep_spec(ps.drop_last()) + seq![crate_file_name_spec(ps.last())]
    }
}

/// Archive candidates are files only; one is deleted when its full
/// name (no suffix stripping) is no package's archive name.
pub open spec fn archive_doomed_dir_spec(es: Seq<EntryInfoV>, keep: Seq<Seq<char>>) -> Seq<
    Seq<char>,
>
    decreases es.len(),
{
    if es.len() == 0 {
        Seq::empty()
    } else {
        archive_doomed_dir_spec(es.drop_last(), keep) + if !es.last().is_dir && !keep.contains(
            es.last().name,
        ) {
            seq![es.last().name]
        } else {
            Seq::empty()
        }
    }
}

pub open spec fn archive_doomed_spec(ds: Seq<CacheSourceDirV>, keep: Seq<Seq<char>>) -> Seq<
    Seq<Seq<char>>,
>
    decreases ds.len(),
{
    if ds.len() == 0 {
        Seq::empty()
    } else {
        archive_doomed_spec(ds.drop_last(), keep) + seq![
            archive_doomed_dir_spec(ds.last().entries, keep),
        ]
    }
}

/// `<name>-<version>.crate`, the archive file a package keeps.
pub fn crate_file_name(p: &PackageDefinition) -> (r: String)
    ensures
        r@ == crate_file_name_spec(p@),
{
    let dash: String = p.name.clone().concat("-");
    let with_version: String = dash.concat(p.version.as_str());
    let full: String = with_version.concat(".crate");
    proof {
        reveal_strlit("-");
        reveal_strlit(".crate");
        assert("-"@ =~= seq!['-']);
        assert(".crate"@ =~= seq!['.', 'c', 'r', 'a', 't', 'e']);
        assert(full@ =~= crate_file_name_spec(p@));
    }
    full
}

fn crate_keep_names(packages: &Packages) -> (v: Vec<String>)
    ensures
        v.deep_view() == crate_keep_spec(packages.deep_view()),
{
    let ghost pvs = packages.deep_view();
    let mut v: Vec<String> = Vec::new();
    let mut i: usize = 0;
    assert(pvs.take(0) =~= Seq::<PackageDefinitionV>::empty());
    while i < packages.len()
        invariant
            0 <= i <= packages.len(),
            pvs == packages.deep_view(),
            pvs.len() == packages@.len(),
            v.deep_view() =~= crate_keep_spec(pvs.take(i as int)),
        decreases packages.len() - i,
    {
        assert(pvs[i as int] == packages@[i as int]@);
        let ghost before = v.deep_view();
        v.push(crate_file_name(&packages[i]));
        assert(v.deep_view() =~= before.push(crate_file_name_spec(pvs[i as int])));
        assert(pvs.take(i + 1).drop_last() =~= pvs.take(i as int));
        assert(pvs.take(i + 1).last() == pvs[i as int]);
        i = i + 1;
    }
    assert(pvs.take(i as int) =~= pvs);
    v
}

/// What a registry prune does: the `src` subtree always goes; the
/// `.cache` of every git-backed index mirror goes; and, only when
/// archive pruning is on, every cached archive file no current package
/// names.
pub struct RegistryPlan {
    pub remove_src: bool,
    pub index_cache_doomed: Vec<String>,
    pub archive_doomed: Vec<Vec<String>>,
}

/// Decide a registry prune over the `index` listing and the `cache`
/// source listings.
pub fn clean_registry(
    index_entries: &Vec<IndexEntry>,
    cache_dirs: &Vec<CacheSourceDir>,
    packages: &Packages,
    crates: bool,
) -> (plan: RegistryPlan)
    ensures
        plan.remove_src == true,
        plan.index_cache_doomed.deep_view() == index_cache_doomed_spec(index_entries.deep_view()),
        !crates ==> plan.archive_doomed@.len() == 0,
        crates ==> plan.archive_doomed.deep_view() == archive_doomed_spec(
            cache_dirs.deep_view(),
            crate_keep_spec(packages.deep_view()),
        ),
{
    let ghost ivs = index_entries.deep_view();
    let mut index_cache_doomed: Vec<String> = Vec::new();
    let mut i: usize = 0;
    assert(ivs.take(0) =~= Seq::<IndexEntryV>::empty());
    while i < index_entries.len()
        invariant
            0 <= i <= index_entries.len(),
            ivs == index_entries.deep_view(),
            ivs.len() == index_entries@.len(),
            index_cache_doomed.deep_view() =~= index_cache_doomed_spec(ivs.take(i as int)),
        decreases index_entries.len() - i,
    {
        assert(ivs[i as int] == index_entries@[i as int]@);
        let ghost before = index_cache_doomed.deep_view();
        if index_entries[i].is_dir && index_entries[i].has_git {
            index_cache_doomed.push(index_entries[i].name.clone());
            assert(index_cache_doomed.deep_view() =~= before.push(ivs[i as int].name));
        }
        assert(ivs.take(i + 1).drop_last() =~= ivs.take(i as int));
        assert(ivs.take(i + 1).last() == ivs[i as int]);
        i = i + 1;
    }
    assert(ivs.take(i as int) =~= ivs);

    let mut archive_doomed: Vec<Vec<String>> = Vec::new();
    if crates {
        let keep = crate_keep_names(packages);
        let ghost dvs = cache_dirs.deep_view();
        let ghost keep_v = crate_keep_spec(packages.deep_view());
        let mut d: usize = 0;
        assert(dvs.take(0) =~= Seq::<CacheSourceDirV>::empty());
        while d < cache_dirs.len()
            invariant
                0 <= d <= cache_dirs.len(),
                dvs == cache_dirs.deep_view(),
                dvs.len() == cache_dirs@.len(),
                keep.deep_view() == keep_v,
                archive_doomed.deep_view() =~= archive_doomed_spec(dvs.take(d as int), keep_v),
            decreases cache_dirs.len() - d,
        {
            assert(dvs[d as int] == cache_dirs@[d as int]@);
            let ghost outer_before = archive_doomed.deep_view();
            let dir = &cache_dirs[d];
            let ghost evs = dvs[d as int].entries;
            let mut doomed: Vec<String> = Vec::new();
            let mut j: usize = 0;
            assert(evs.take(0) =~= Seq::<EntryInfoV>::empty());
            while j < dir.entries.len()
                invariant
                    0 <= j <= dir.entries.len(),
                    dvs == cache_dirs.deep_view(),
                    dvs.len() == cache_dirs@.len(),
                    0 <= d < cache_dirs.len(),
                    dir == &cache_dirs@[d as int],
                    evs == dvs[d as int].entries,
                    evs.len() == dir.entries@.len(),
                    keep.deep_view() == keep_v,
                    doomed.deep_view() =~= archive_doomed_dir_spec(evs.take(j as int), keep_v),
                decreases dir.entries.len() - j,
            {
                assert(evs[j as int] == dir.entries@[j as int]@);
                let ghost before = doomed.deep_view();
                let e = &dir.entries[j];
                if !e.is_dir && !string_list_contains(&keep, &e.name) {
                    doomed.push(e.name.clone());
                    assert(doomed.deep_view() =~= before.push(evs[j as int].name));
                }
                assert(evs.take(j + 1).drop_last() =~= evs.take(j as int));
                assert(evs.take(j + 1).last() == evs[j as int]);
                j = j + 1;
            }
            assert(evs.take(j as int) =~= evs);
            archive_doomed.push(doomed);
            assert(archive_doomed.deep_view() =~= outer_before.push(
                archive_doomed_dir_spec(evs, keep_v),
            ));
            assert(dvs.take(d + 1).drop_last() =~= dvs.take(d as int));
            assert(dvs.take(d + 1).last() == dvs[d as int]);
            d = d + 1;
        }
        assert(dvs.take(d as int) =~= dvs);
    }
    RegistryPlan { remove_src: true, index_cache_doomed, archive_doomed }
}

} // verus!
