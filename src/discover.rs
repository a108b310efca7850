//! Assembling the catalog from the per-version listings of discovery.
//!
//! A failed listing of a grouped API version counts as listing nothing; a
//! failed listing of a core API version fails the whole assembly.

use vstd::prelude::*;
use crate::descriptor::{core_group, models, DescriptorModel, ResourceDescriptor};
use crate::text::free_of;

verus! {

/// What discovery returned for one grouped API version, named `<group>/<version>`;
/// `None` when the request failed.
pub struct GroupVersionListing {
    pub group_version: String,
    pub resources: Option<Vec<ResourceDescriptor>>,
}

/// What discovery returned for one version of the core API; `None` when the
/// request failed.
pub struct CoreVersionListing {
    pub version: String,
    pub resources: Option<Vec<ResourceDescriptor>>,
}

/// Discovery of the core API failed for the listing at this index.
#[derive(Clone, Copy, Debug, PartialEq, Eq)]
pub enum DiscoveryError {
    CoreVersionFailed(usize),
}

/// The text before and after the first `c` in `s`, as `str::split_once`.
pub open spec fn split_once(s: Seq<char>, c: char) -> Option<(Seq<char>, Seq<char>)> {
    if exists|i: int| 0 <= i < s.len() && s[i] == c {
        let k = choose|i: int|
            0 <= i < s.len() && s[i] == c && forall|j: int| 0 <= j < i ==> #[trigger] s[j] != c;
        Some((s.subrange(0, k), s.subrange(k + 1, s.len() as int)))
    } else {
        None
    }
}

/// A descriptor listed under `group_version`, with its group and version set
/// from it when it holds a `/`.
pub open spec fn with_group_version(d: DescriptorModel, group_version: Seq<char>) -> DescriptorModel {
    match split_once(group_version, '/') {
        Some((g, v)) => DescriptorModel { group: Some(g), version: Some(v), ..d },
        None => d,
    }
}

/// A descriptor listed under a core API version.
pub open spec fn with_core_version(d: DescriptorModel, version: Seq<char>) -> DescriptorModel {
    DescriptorModel { group: Some(core_group()), version: Some(version), ..d }
}

pub open spec fn listed_in_group(l: GroupVersionListing) -> Seq<DescriptorModel> {
    match l.resources {
        Some(rs) => models(rs@).map_values(|d: DescriptorModel| with_group_version(d, l.group_version@)),
        None => Seq::<DescriptorModel>::empty(),
    }
}

pub open spec fn listed_in_core(l: CoreVersionListing) -> Seq<DescriptorModel> {
    match l.resources {
        Some(rs) => models(rs@).map_values(|d: DescriptorModel| with_core_version(d, l.version@)),
        None => Seq::<DescriptorModel>::empty(),
    }
}

/// All descriptors of the grouped listings, in order.
pub open spec fn grouped_entries(ls: Seq<GroupVersionListing>) -> Seq<DescriptorModel>
    decreases ls.len(),
{
    if ls.len() == 0 {
        Seq::<DescriptorModel>::empty()
    } else {
        grouped_entries(ls.drop_last()) + listed_in_group(ls.last())
    }
}

/// All descriptors of the core listings, in order.
pub open spec fn core_entries(ls: Seq<CoreVersionListing>) -> Seq<DescriptorModel>
    decreases ls.len(),
{
    if ls.len() == 0 {
        Seq::<DescriptorModel>::empty()
    } else {
        core_entries(ls.drop_last()) + listed_in_core(ls.last())
    }
}

/// `ds` without the subresources, whose plural names hold a `/`.
pub open spec fn without_subresources(ds: Seq<DescriptorModel>) -> Seq<DescriptorModel>
    decreases ds.len(),
{
    if ds.len() == 0 {
        Seq::<DescriptorModel>::empty()
    } else {
        let init = without_subresources(ds.drop_last());
        if free_of(ds.last().name, '/') {
            init.push(ds.last())
        } else {
            init
        }
    }
}

/// No descriptor that survives the filter names a subresource.
pub proof fn lemma_no_subresources(ds: Seq<DescriptorModel>)
    ensures
        forall|k: int|
            0 <= k < without_subresources(ds).len() ==> free_of(
                #[trigger] without_subresources(ds)[k].name,
                '/',
            ),
    decreases ds.len(),
{
    if ds.len() > 0 {
        lemma_no_subresources(ds.drop_last());
    }
}

/// Splits `s` at its first `c`.
pub fn split_once_at(s: &str, c: char) -> (r: Option<(String, String)>)
    ensures
        match split_once(s@, c) {
            Some((a, b)) => match r {
                Some((x, y)) => x@ == a && y@ == b,
                None => false,
            },
            None => r is None,
        },
{
    let n = s.unicode_len();
    let mut i: usize = 0;
    while i < n
        invariant
            n == s@.len(),
            i <= n,
            forall|j: int| 0 <= j < i ==> s@[j] != c,
        decreases n - i,
    {
        if s.get_char(i) == c {
            let ghost k = choose|k: int|
                0 <= k < s@.len() && s@[k] == c && forall|j: int| 0 <= j < k ==> #[trigger] s@[j] != c;
            proof {
                if k < i {
                } else if k > i {
                    assert(s@[i as int] != c);
                }
            }
            let head = s.substring_char(0, i).to_string();
            let tail = s.substring_char(i + 1, n).to_string();
            return Some((head, tail));
        }
        i = i + 1;
    }
    None
}

/// Removes the subresources from `ds`, keeping the order of the rest.
pub fn drop_subresources(ds: &Vec<ResourceDescriptor>) -> (r: Vec<ResourceDescriptor>)
    ensures
        models(r@) == without_subresources(models(ds@)),
{
    let mut out: Vec<ResourceDescriptor> = Vec::new();
    let mut i: usize = 0;
    while i < ds.len()
        invariant
            i <= ds@.len(),
            models(out@) == without_subresources(models(ds@).subrange(0, i as int)),
        decreases ds@.len() - i,
    {
        let ghost before = out@;
        proof {
            assert(models(ds@).subrange(0, i as int + 1).drop_last() =~= models(ds@).subrange(0, i as int));
        }
        if !crate::text::contains_char(ds[i].name.as_str(), '/') {
            out.push(ds[i].duplicate());
            proof {
                assert(models(out@) =~= models(before).push(ds@[i as int]@));
            }
        }
        i = i + 1;
    }
    proof {
        assert(models(ds@).subrange(0, ds@.len() as int) =~= models(ds@));
        assert(models(ds@).subrange(0, 0) =~= Seq::<DescriptorModel>::empty());
    }
    out
}

/// The descriptors of one grouped listing, with group and version taken from
/// `group_version`.
pub fn fill_group_version(resources: &Vec<ResourceDescriptor>, group_version: &str) -> (r: Vec<
    ResourceDescriptor,
>)
    ensures
        models(r@) == models(resources@).map_values(
            |d: DescriptorModel| with_group_version(d, group_version@),
        ),
{
    let split = split_once_at(group_version, '/');
    let mut out: Vec<ResourceDescriptor> = Vec::new();
    let mut i: usize = 0;
    while i < resources.len()
        invariant
            i <= resources@.len(),
            match split_once(group_version@, '/') {
                Some((a, b)) => match split {
                    Some((x, y)) => x@ == a && y@ == b,
                    None => false,
                },
                None => split is None,
            },
            models(out@) =~= models(resources@).subrange(0, i as int).map_values(
                |d: DescriptorModel| with_group_version(d, group_version@),
            ),
        decreases resources@.len() - i,
    {
        let mut d = resources[i].duplicate();
        match &split {
            Some((g, v)) => {
                d.group = Some(g.clone());
                d.version = Some(v.clone());
            },
            None => {},
        }
        proof {
            assert(d@ == with_group_version(resources@[i as int]@, group_version@));
        }
        let ghost before = out@;
        out.push(d);
        proof {
            assert(models(out@) =~= models(before).push(d@));
            assert(models(resources@).subrange(0, i as int + 1) =~= models(resources@).subrange(
                0,
                i as int,
            ).push(resources@[i as int]@));
        }
        i = i + 1;
    }
    proof {
        assert(models(resources@).subrange(0, resources@.len() as int) =~= models(resources@));
    }
    out
}

/// The descriptors of one core listing, with group `core` and `version`.
pub fn fill_core_version(resources: &Vec<ResourceDescriptor>, version: &str) -> (r: Vec<
    ResourceDescriptor,
>)
    ensures
        models(r@) == models(resources@).map_values(
            |d: DescriptorModel| with_core_version(d, version@),
        ),
{
    let mut out: Vec<ResourceDescriptor> = Vec::new();
    let mut i: usize = 0;
    while i < resources.len()
        invariant
            i <= resources@.len(),
            models(out@) =~= models(resources@).subrange(0, i as int).map_values(
                |d: DescriptorModel| with_core_version(d, version@),
            ),
        decreases resources@.len() - i,
    {
        let mut d = resources[i].duplicate();
        d.group = Some(crate::descriptor::core_name());
        d.version = Some(version.to_string());
        proof {
            assert(d@ == with_core_version(resources@[i as int]@, version@));
        }
        let ghost before = out@;
        out.push(d);
        proof {
            assert(models(out@) =~= models(before).push(d@));
            assert(models(resources@).subrange(0, i as int + 1) =~= models(resources@).subrange(
                0,
                i as int,
            ).push(resources@[i as int]@));
        }
        i = i + 1;
    }
    proof {
        assert(models(resources@).subrange(0, resources@.len() as int) =~= models(resources@));
    }
    out
}

/// The catalog: the descriptors of every grouped listing, then those of every
/// core listing, each with its group and version filled in, without
/// subresources. Fails, naming the first such listing, when a core listing
/// failed; a failed grouped listing contributes nothing.
pub fn assemble_catalog(groups: &Vec<GroupVersionListing>, core: &Vec<CoreVersionListing>) -> (r:
    Result<Vec<ResourceDescriptor>, DiscoveryError>)
    ensures
        r is Err <==> exists|i: int| 0 <= i < core@.len() && #[trigger] core@[i].resources is None,
        match r {
            Ok(catalog) => models(catalog@) == without_subresources(
                grouped_entries(groups@) + core_entries(core@),
            ) && forall|k: int| 0 <= k < catalog@.len() ==> free_of(#[trigger] catalog@[k].name@, '/'),
            Err(DiscoveryError::CoreVersionFailed(i)) => i < core@.len() && core@[i as int].resources is None
                && forall|j: int| 0 <= j < i ==> #[trigger] core@[j].resources is Some,
        },
{
    let mut all: Vec<ResourceDescriptor> = Vec::new();
    let mut i: usize = 0;
    while i < groups.len()
        invariant
            i <= groups@.len(),
            models(all@) == grouped_entries(groups@.subrange(0, i as int)),
        decreases groups@.len() - i,
    {
        proof {
            assert(groups@.subrange(0, i as int + 1).drop_last() =~= groups@.subrange(0, i as int));
            assert(groups@.subrange(0, 0) =~= Seq::<GroupVersionListing>::empty());
        }
        let ghost before = all@;
        match &groups[i].resources {
            Some(rs) => {
                let mut filled = fill_group_version(rs, groups[i].group_version.as_str());
                all.append(&mut filled);
                proof {
                    assert(models(all@) =~= models(before) + listed_in_group(groups@[i as int]));
                }
            },
            None => {
                proof {
                    assert(models(all@) =~= models(before) + listed_in_group(groups@[i as int]));
                }
            },
        }
        i = i + 1;
    }
    proof {
        assert(groups@.subrange(0, groups@.len() as int) =~= groups@);
    }
    let ghost grouped = models(all@);
    let mut k: usize = 0;
    while k < core.len()
        invariant
            k <= core@.len(),
            grouped == grouped_entries(groups@),
            models(all@) == grouped + core_entries(core@.subrange(0, k as int)),
            forall|j: int| 0 <= j < k ==> #[trigger] core@[j].resources is Some,
        decreases core@.len() - k,
    {
        proof {
            assert(core@.subrange(0, k as int + 1).drop_last() =~= core@.subrange(0, k as int));
            assert(core@.subrange(0, 0) =~= Seq::<CoreVersionListing>::empty());
        }
        let ghost before = all@;
        match &core[k].resources {
            Some(rs) => {
                let mut filled = fill_core_version(rs, core[k].version.as_str());
                all.append(&mut filled);
                proof {
                    assert(models(all@) =~= models(before) + listed_in_core(core@[k as int]));
                    assert(grouped + core_entries(core@.subrange(0, k as int)) + listed_in_core(
                        core@[k as int],
                    ) =~= grouped + core_entries(core@.subrange(0, k as int + 1)));
                }
            },
            None => {
                return Err(DiscoveryError::CoreVersionFailed(k));
            },
        }
        k = k + 1;
    }
    proof {
        assert(core@.subrange(0, core@.len() as int) =~= core@);
    }
    let catalog = drop_subresources(&all);
    proof {
        lemma_no_subresources(models(all@));
        assert forall|k: int| 0 <= k < catalog@.len() implies free_of(#[trigger] catalog@[k].name@, '/') by {
            assert(models(catalog@)[k] == catalog@[k]@);
            assert(free_of(without_subresources(models(all@))[k].name, '/'));
        }
    }
    Ok(catalog)
}

} // verus!
