use vstd::prelude::*;

verus! {

/// The free-text metadata of a registry entry.
#[derive(Clone, Debug)]
pub struct Meta {
    pub description: Option<String>,
    pub long_description: Option<String>,
}

/// One output of a registry entry: its label (such as `out` or `dev`) and
/// the path that the built output occupies.
#[derive(Clone, Debug)]
pub struct Output {
    pub label: String,
    pub path: String,
}

/// One raw registry entry, as the registry document declares it.
#[derive(Clone, Debug)]
pub struct PackageInfo {
    pub pname: Option<String>,
    pub version: Option<String>,
    pub outputs: Vec<Output>,
    pub meta: Option<Meta>,
}

/// The path of the first output of `outputs` that is labelled `out`.
pub open spec fn out_path_of(outputs: Seq<Output>) -> Option<Seq<char>>
    decreases outputs.len(),
{
    if outputs.len() == 0 {
        None
    } else if outputs[0].label@ == "out"@ {
        Some(outputs[0].path@)
    } else {
        out_path_of(outputs.drop_first())
    }
}

impl PackageInfo {
    /// Whether the entry is installable, that is, has an `out` output.
    pub open spec fn installable(&self) -> bool {
        out_path_of(self.outputs@) is Some
    }

    /// The path of the `out` output, if there is one.
    pub fn out_path(&self) -> (r: Option<&String>)
        ensures
            match r {
                Some(p) => out_path_of(self.outputs@) == Some(p@),
                None => out_path_of(self.outputs@) is None,
            },
    {
        let out = String::from_str("out");
        proof {
            reveal_strlit("out");
        }
        let mut i: usize = 0;
        assert(self.outputs@.skip(0) =~= self.outputs@);
        while i < self.outputs.len()
            invariant
                0 <= i <= self.outputs@.len(),
                out@ == "out"@,
                out_path_of(self.outputs@) == out_path_of(self.outputs@.skip(i as int)),
            decreases self.outputs@.len() - i,
        {
            let o = &self.outputs[i];
            assert(self.outputs@.skip(i as int).drop_first() =~= self.outputs@.skip(i + 1));
            if o.label == out {
                return Some(&o.path);
            }
            i = i + 1;
        }
        None
    }
}

/// A registry: installable and other entries, keyed by attribute.
pub struct Registry {
    entries: Vec<(String, PackageInfo)>,
}

/// The attributes of `entries` are pairwise distinct.
pub open spec fn distinct_attributes(entries: Seq<(String, PackageInfo)>) -> bool {
    forall|i: int, j: int|
        0 <= i < entries.len() && 0 <= j < entries.len() && i != j
            ==> #[trigger] entries[i].0@ != #[trigger] entries[j].0@
}

impl Registry {
    /// The entries, in the order in which their attributes were first added.
    pub closed spec fn entries(&self) -> Seq<(String, PackageInfo)> {
        self.entries@
    }

    /// No attribute has two entries.
    pub open spec fn wf(&self) -> bool {
        distinct_attributes(self.entries())
    }

    /// Whether the registry holds an entry for `attr`.
    pub open spec fn has_attribute(&self, attr: Seq<char>) -> bool {
        exists|i: int| 0 <= i < self.entries().len() && #[trigger] self.entries()[i].0@ == attr
    }

    /// An empty registry.
    pub fn new() -> (r: Registry)
        ensures
            r.wf(),
            r.entries().len() == 0,
    {
        Registry { entries: Vec::new() }
    }

    /// The number of entries.
    pub fn len(&self) -> (r: usize)
        ensures
            r == self.entries().len(),
    {
        self.entries.len()
    }

    /// Adds the entry `info` under `attr`. An earlier entry under the same
    /// attribute is replaced in place; a new attribute goes to the end.
    pub fn insert(&mut self, attr: String, info: PackageInfo)
        requires
            old(self).wf(),
        ensures
            final(self).wf(),
            ({
                let e = old(self).entries();
                if exists|i: int| 0 <= i < e.len() && #[trigger] e[i].0@ == attr@ {
                    exists|i: int|
                        0 <= i < e.len() && #[trigger] e[i].0@ == attr@
                            && final(self).entries() == e.update(i, (attr, info))
                } else {
                    final(self).entries() == e.push((attr, info))
                }
            }),
    {
        let mut i: usize = 0;
        while i < self.entries.len()
            invariant
                0 <= i <= self.entries@.len(),
                self.entries@ == old(self).entries@,
                distinct_attributes(self.entries@),
                forall|k: int| 0 <= k < i ==> #[trigger] self.entries@[k].0@ != attr@,
            decreases self.entries@.len() - i,
        {
            if self.entries[i].0 == attr {
                let ghost e = self.entries@;
                self.entries.set(i, (attr, info));
                assert(forall|k: int|
                    0 <= k < e.len() ==> #[trigger] self.entries@[k].0@ == e[k].0@);
                assert forall|a: int, b: int|
                    0 <= a < e.len() && 0 <= b < e.len() && a != b implies
                        #[trigger] self.entries@[a].0@ != #[trigger] self.entries@[b].0@ by {
                    assert(self.entries@[a].0@ == e[a].0@);
                    assert(self.entries@[b].0@ == e[b].0@);
                }
                return;
            }
            i = i + 1;
        }
        self.entries.push((attr, info));
    }

    /// The entries.
    pub fn entries_ref(&self) -> (r: &Vec<(String, PackageInfo)>)
        ensures
            r@ == self.entries(),
    {
        &self.entries
    }
}

} // verus!
