use vstd::prelude::*;

use crate::error::Error;
use crate::package::Package;
use crate::registry::{distinct_attributes, out_path_of, PackageInfo, Registry};

verus! {

/// The views of an optional string.
pub open spec fn opt_view(o: Option<String>) -> Option<Seq<char>> {
    match o {
        Some(s) => Some(s@),
        None => None,
    }
}

/// The description that an entry's metadata declares, if any.
pub open spec fn description_of(info: PackageInfo) -> Option<Seq<char>> {
    match info.meta {
        Some(m) => opt_view(m.description),
        None => None,
    }
}

/// The long description that an entry's metadata declares, if any.
pub open spec fn long_description_of(info: PackageInfo) -> Option<Seq<char>> {
    match info.meta {
        Some(m) => opt_view(m.long_description),
        None => None,
    }
}

/// The name of the entry: its `pname` if it declares one, else its attribute.
pub open spec fn name_of(attr: Seq<char>, info: PackageInfo) -> Seq<char> {
    match info.pname {
        Some(n) => n@,
        None => attr,
    }
}

/// An entry whose normalization fails: it is installable but has no version.
pub open spec fn lacks_version(info: PackageInfo) -> bool {
    info.installable() && info.version is None
}

/// `p` is the canonical record of the installable entry `info` under `attr`.
pub open spec fn normal_form(p: Package, attr: Seq<char>, info: PackageInfo) -> bool {
    &&& p.attribute@ == attr
    &&& p.name@ == name_of(attr, info)
    &&& info.version matches Some(v) && p.version@ == v@
    &&& opt_view(p.store_path) == out_path_of(info.outputs@)
    &&& opt_view(p.description) == description_of(info)
    &&& opt_view(p.long_description) == long_description_of(info)
    &&& p.score is None
}

/// The installable entries of `entries`, in their order.
pub open spec fn installable_entries(entries: Seq<(String, PackageInfo)>) -> Seq<(String, PackageInfo)>
    decreases entries.len(),
{
    if entries.len() == 0 {
        Seq::empty()
    } else if entries.last().1.installable() {
        installable_entries(entries.drop_last()).push(entries.last())
    } else {
        installable_entries(entries.drop_last())
    }
}

/// `records` holds, in order, the canonical record of each installable entry.
pub open spec fn records_of(entries: Seq<(String, PackageInfo)>, records: Seq<Package>) -> bool {
    let inc = installable_entries(entries);
    &&& records.len() == inc.len()
    &&& forall|k: int|
        0 <= k < records.len() ==> normal_form(#[trigger] records[k], inc[k].0@, inc[k].1)
}

fn clone_opt(o: &Option<String>) -> (r: Option<String>)
    ensures
        opt_view(r) == opt_view(*o),
{
    match o {
        Some(s) => Some(s.clone()),
        None => None,
    }
}

impl PackageInfo {
    /// The canonical record of this entry under `attr`: `None` where the
    /// entry has no `out` output, an error where it has one but no version.
    pub fn to_package(&self, attr: &String) -> (r: Result<Option<Package>, Error>)
        ensures
            !self.installable() ==> r matches Ok(None),
            lacks_version(*self) ==> (r matches Err(Error::MissingVersion { attribute })
                && attribute@ == attr@),
            self.installable() && self.version is Some ==> (r matches Ok(Some(p))
                && normal_form(p, attr@, *self)),
    {
        let store_path = match self.out_path() {
            Some(p) => p.clone(),
            None => {
                return Ok(None);
            },
        };
        let version = match &self.version {
            Some(v) => v.clone(),
            None => {
                return Err(Error::MissingVersion { attribute: attr.clone() });
            },
        };
        let name = match &self.pname {
            Some(n) => n.clone(),
            None => attr.clone(),
        };
        let (description, long_description) = match &self.meta {
            Some(m) => (clone_opt(&m.description), clone_opt(&m.long_description)),
            None => (None, None),
        };
        Ok(
            Some(
                Package {
                    attribute: attr.clone(),
                    name,
                    version,
                    store_path: Some(store_path),
                    description,
                    long_description,
                    score: None,
                },
            ),
        )
    }
}

/// The canonical records of the installable entries of `registry`, in the
/// registry's order. Fails with `MissingVersion`, naming the first such
/// entry, where an installable entry has no version.
pub fn normalize(registry: &Registry) -> (r: Result<Vec<Package>, Error>)
    ensures
        r is Ok <==> forall|i: int|
            0 <= i < registry.entries().len() ==> !lacks_version(
                #[trigger] registry.entries()[i].1,
            ),
        r matches Ok(records) ==> records_of(registry.entries(), records@),
        r matches Err(e) ==> (e matches Error::MissingVersion { attribute } && exists|i: int|
            0 <= i < registry.entries().len() && lacks_version(
                #[trigger] registry.entries()[i].1,
            ) && attribute@ == registry.entries()[i].0@ && forall|j: int|
                0 <= j < i ==> !lacks_version(#[trigger] registry.entries()[j].1)),
{
    let entries = registry.entries_ref();
    let mut records: Vec<Package> = Vec::new();
    let mut i: usize = 0;
    while i < entries.len()
        invariant
            entries@ == registry.entries(),
            0 <= i <= entries@.len(),
            records_of(entries@.take(i as int), records@),
            forall|j: int| 0 <= j < i ==> !lacks_version(#[trigger] entries@[j].1),
        decreases entries@.len() - i,
    {
        let (attr, info) = &entries[i];
        assert(entries@.take(i + 1).drop_last() =~= entries@.take(i as int));
        match info.to_package(attr) {
            Ok(Some(p)) => {
                records.push(p);
            },
            Ok(None) => {},
            Err(e) => {
                return Err(e);
            },
        }
        i = i + 1;
    }
    assert(entries@.take(i as int) =~= entries@);
    Ok(records)
}

proof fn lemma_installable_sound(s: Seq<(String, PackageInfo)>)
    ensures
        forall|k: int|
            0 <= k < installable_entries(s).len() ==> exists|j: int|
                0 <= j < s.len() && #[trigger] installable_entries(s)[k] == #[trigger] s[j]
                    && s[j].1.installable(),
    decreases s.len(),
{
    if s.len() > 0 {
        let t = s.drop_last();
        lemma_installable_sound(t);
        let it = installable_entries(t);
        let inc = installable_entries(s);
        if s.last().1.installable() {
            assert(inc == it.push(s.last()));
        } else {
            assert(inc == it);
        }
        assert forall|k: int| 0 <= k < inc.len() implies exists|j: int|
            0 <= j < s.len() && #[trigger] inc[k] == #[trigger] s[j] && s[j].1.installable() by {
            if k < it.len() {
                let j = choose|j: int| 0 <= j < t.len() && it[k] == t[j] && t[j].1.installable();
                assert(inc[k] == s[j]);
            } else {
                assert(inc[k] == s[s.len() - 1]);
            }
        }
    }
}

proof fn lemma_installable_complete(s: Seq<(String, PackageInfo)>)
    ensures
        forall|j: int|
            0 <= j < s.len() && (#[trigger] s[j]).1.installable() ==> exists|k: int|
                0 <= k < installable_entries(s).len() && installable_entries(s)[k] == s[j],
    decreases s.len(),
{
    if s.len() > 0 {
        let t = s.drop_last();
        lemma_installable_complete(t);
        let it = installable_entries(t);
        let inc = installable_entries(s);
        if s.last().1.installable() {
            assert(inc == it.push(s.last()));
        } else {
            assert(inc == it);
        }
        assert forall|j: int| 0 <= j < s.len() && (#[trigger] s[j]).1.installable() implies exists|
            k: int,
        | 0 <= k < inc.len() && inc[k] == s[j] by {
            if j < t.len() {
                assert(t[j] == s[j]);
                let k = choose|k: int| 0 <= k < it.len() && it[k] == t[j];
                assert(inc[k] == s[j]);
            } else {
                assert(inc[inc.len() - 1] == s[j]);
            }
        }
    }
}

proof fn lemma_installable_distinct(s: Seq<(String, PackageInfo)>)
    requires
        distinct_attributes(s),
    ensures
        distinct_attributes(installable_entries(s)),
    decreases s.len(),
{
    if s.len() > 0 {
        let t = s.drop_last();
        assert(distinct_attributes(t)) by {
            assert forall|a: int, b: int|
                0 <= a < t.len() && 0 <= b < t.len() && a != b implies #[trigger] t[a].0@
                    != #[trigger] t[b].0@ by {
                assert(t[a] == s[a] && t[b] == s[b]);
            }
        }
        lemma_installable_distinct(t);
        lemma_installable_sound(t);
        let it = installable_entries(t);
        let inc = installable_entries(s);
        if s.last().1.installable() {
            assert(inc == it.push(s.last()));
            assert forall|a: int, b: int|
                0 <= a < inc.len() && 0 <= b < inc.len() && a != b implies #[trigger] inc[a].0@
                    != #[trigger] inc[b].0@ by {
                if a < it.len() && b < it.len() {
                    assert(inc[a] == it[a] && inc[b] == it[b]);
                } else if a < it.len() {
                    let ja = choose|j: int| 0 <= j < t.len() && it[a] == #[trigger] t[j] && t[j].1.installable();
                    assert(inc[a] == s[ja]);
                    assert(inc[b] == s[s.len() - 1]);
                } else {
                    let jb = choose|j: int| 0 <= j < t.len() && it[b] == #[trigger] t[j] && t[j].1.installable();
                    assert(inc[b] == s[jb]);
                    assert(inc[a] == s[s.len() - 1]);
                }
            }
        } else {
            assert(inc == it);
        }
    }
}

/// Normalization is complete: each attribute of a registry whose entry is
/// installable has exactly one record, and no other attribute has any.
pub proof fn lemma_normalization_complete(
    registry: Registry,
    records: Seq<Package>,
    attr: Seq<char>,
)
    requires
        registry.wf(),
        records_of(registry.entries(), records),
    ensures
        (exists|i: int|
            0 <= i < registry.entries().len() && #[trigger] registry.entries()[i].0@ == attr
                && registry.entries()[i].1.installable()) ==> exists|k: int|
            0 <= k < records.len() && #[trigger] records[k].attribute@ == attr && forall|k2: int|
                0 <= k2 < records.len() && #[trigger] records[k2].attribute@ == attr ==> k2 == k,
        !(exists|i: int|
            0 <= i < registry.entries().len() && #[trigger] registry.entries()[i].0@ == attr
                && registry.entries()[i].1.installable()) ==> forall|k: int|
            0 <= k < records.len() ==> #[trigger] records[k].attribute@ != attr,
{
    let e = registry.entries();
    let inc = installable_entries(e);
    lemma_installable_sound(e);
    lemma_installable_complete(e);
    lemma_installable_distinct(e);
    assert(forall|k: int| 0 <= k < records.len() ==> #[trigger] records[k].attribute@ == inc[k].0@);
    if exists|i: int| 0 <= i < e.len() && #[trigger] e[i].0@ == attr && e[i].1.installable() {
        let i = choose|i: int| 0 <= i < e.len() && #[trigger] e[i].0@ == attr && e[i].1.installable();
        let k = choose|k: int| 0 <= k < inc.len() && inc[k] == e[i];
        assert(records[k].attribute@ == attr);
        assert forall|k2: int|
            0 <= k2 < records.len() && #[trigger] records[k2].attribute@ == attr implies k2 == k by {
            assert(inc[k2].0@ == inc[k].0@);
        }
    } else {
        assert forall|k: int| 0 <= k < records.len() implies #[trigger] records[k].attribute@
            != attr by {
            let j = choose|j: int| 0 <= j < e.len() && inc[k] == e[j] && e[j].1.installable();
            assert(e[j].0@ == inc[k].0@);
        }
    }
}

/// An entry that declares no `pname` is named by its attribute.
pub proof fn lemma_name_fallback(p: Package, attr: Seq<char>, info: PackageInfo)
    requires
        normal_form(p, attr, info),
        info.pname is None,
    ensures
        p.name@ == attr,
{
}

} // verus!
