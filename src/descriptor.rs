//! Resource-type descriptors and the rules that match a name against them.

use vstd::prelude::*;
use crate::text::views;

verus! {

/// Metadata of one queryable resource type, as the API's discovery reports it.
/// `group` and `version` are filled in by catalog assembly; the core API uses
/// the group name `core`.
#[derive(Clone, Debug)]
pub struct ResourceDescriptor {
    pub group: Option<String>,
    pub version: Option<String>,
    pub kind: String,
    /// The plural name, which is the path segment of the collection.
    pub name: String,
    pub singular_name: String,
    pub short_names: Vec<String>,
    pub namespaced: bool,
}

/// The mathematical value of a descriptor.
pub ghost struct DescriptorModel {
    pub group: Option<Seq<char>>,
    pub version: Option<Seq<char>>,
    pub kind: Seq<char>,
    pub name: Seq<char>,
    pub singular_name: Seq<char>,
    pub short_names: Seq<Seq<char>>,
    pub namespaced: bool,
}

pub open spec fn opt_view(o: Option<String>) -> Option<Seq<char>> {
    match o {
        Some(s) => Some(s@),
        None => None,
    }
}

impl View for ResourceDescriptor {
    type V = DescriptorModel;

    open spec fn view(&self) -> DescriptorModel {
        DescriptorModel {
            group: opt_view(self.group),
            version: opt_view(self.version),
            kind: self.kind@,
            name: self.name@,
            singular_name: self.singular_name@,
            short_names: views(self.short_names@),
            namespaced: self.namespaced,
        }
    }
}

/// The views of a sequence of descriptors.
pub open spec fn models(v: Seq<ResourceDescriptor>) -> Seq<DescriptorModel> {
    v.map_values(|d: ResourceDescriptor| d@)
}

/// `"<plural>.<group>"`, the qualified name of a descriptor with a group.
pub open spec fn qualified_name(name: Seq<char>, group: Seq<char>) -> Seq<char> {
    name + seq!['.'] + group
}

/// A name designates a descriptor when it equals, exactly, its plural name,
/// its singular name, one of its short names, or `"<plural>.<group>"`.
pub open spec fn names_resource(d: DescriptorModel, r: Seq<char>) -> bool {
    ||| d.name == r
    ||| d.singular_name == r
    ||| d.short_names.contains(r)
    ||| (d.group is Some && qualified_name(d.name, d.group->0) == r)
}

/// `Some(i)` for the first descriptor of `ds` that `r` designates.
pub open spec fn first_match(ds: Seq<DescriptorModel>, r: Seq<char>) -> Option<int> {
    if exists|i: int| 0 <= i < ds.len() && names_resource(ds[i], r) {
        Some(
            choose|i: int|
                0 <= i < ds.len() && names_resource(ds[i], r) && forall|j: int|
                    0 <= j < i ==> !names_resource(#[trigger] ds[j], r),
        )
    } else {
        None
    }
}

/// The group name that stands for the core API.
pub open spec fn core_group() -> Seq<char> {
    seq!['c', 'o', 'r', 'e']
}

pub(crate) fn core_name() -> (r: String)
    ensures
        r@ == core_group(),
{
    let s = String::from_str("core");
    proof {
        reveal_strlit("core");
    }
    s
}

pub(crate) fn str_eq(a: &str, b: &str) -> (r: bool)
    ensures
        r == (a@ == b@),
{
    let n = a.unicode_len();
    let m = b.unicode_len();
    if n != m {
        return false;
    }
    let mut i: usize = 0;
    while i < n
        invariant
            n == a@.len(),
            m == b@.len(),
            n == m,
            i <= n,
            forall|j: int| 0 <= j < i ==> a@[j] == b@[j],
        decreases n - i,
    {
        if a.get_char(i) != b.get_char(i) {
            return false;
        }
        i = i + 1;
    }
    proof {
        assert(a@ =~= b@);
    }
    true
}

/// Whether `resource` equals `"<name>.<group>"`, compared piece by piece.
fn is_qualified(resource: &str, name: &str, group: &str) -> (r: bool)
    ensures
        r == (qualified_name(name@, group@) == resource@),
{
    let n = name.unicode_len();
    let g = group.unicode_len();
    let len = resource.unicode_len();
    if n >= len || len - n - 1 != g {
        proof {
            assert(qualified_name(name@, group@).len() == n + 1 + g);
        }
        return false;
    }
    let ghost q = qualified_name(name@, group@);
    proof {
        assert(q.subrange(0, n as int) =~= name@);
        assert(q.subrange(n as int + 1, len as int) =~= group@);
        assert(q[n as int] == '.');
    }
    let head = resource.substring_char(0, n);
    let tail = resource.substring_char(n + 1, len);
    let dot = resource.get_char(n);
    let r = dot == '.' && str_eq(head, name) && str_eq(tail, group);
    proof {
        if r {
            assert(q =~= resource@);
        }
        if q == resource@ {
            assert(head@ =~= q.subrange(0, n as int));
            assert(tail@ =~= q.subrange(n as int + 1, len as int));
        }
    }
    r
}

fn contains_name(names: &Vec<String>, resource: &str) -> (r: bool)
    ensures
        r == views(names@).contains(resource@),
{
    let mut i: usize = 0;
    while i < names.len()
        invariant
            i <= names@.len(),
            forall|j: int| 0 <= j < i ==> names@[j]@ != resource@,
        decreases names@.len() - i,
    {
        if str_eq(names[i].as_str(), resource) {
            proof {
                assert(views(names@)[i as int] == resource@);
            }
            return true;
        }
        i = i + 1;
    }
    proof {
        if views(names@).contains(resource@) {
            let k = choose|k: int| 0 <= k < views(names@).len() && views(names@)[k] == resource@;
            assert(names@[k]@ == resource@);
        }
    }
    false
}

/// Whether `resource` designates `api_resource`, by exact equality only.
pub fn match_resource(resource: &str, api_resource: &ResourceDescriptor) -> (r: bool)
    ensures
        r == names_resource(api_resource@, resource@),
{
    if str_eq(api_resource.name.as_str(), resource) {
        return true;
    }
    if str_eq(api_resource.singular_name.as_str(), resource) {
        return true;
    }
    if contains_name(&api_resource.short_names, resource) {
        return true;
    }
    match &api_resource.group {
        Some(group) => is_qualified(resource, api_resource.name.as_str(), group.as_str()),
        None => false,
    }
}

fn copy_names(v: &Vec<String>) -> (r: Vec<String>)
    ensures
        views(r@) == views(v@),
{
    let mut out: Vec<String> = Vec::new();
    let mut i: usize = 0;
    while i < v.len()
        invariant
            i <= v@.len(),
            views(out@) =~= views(v@).subrange(0, i as int),
        decreases v@.len() - i,
    {
        let ghost before = out@;
        out.push(v[i].clone());
        proof {
            assert(views(out@) =~= views(before).push(v@[i as int]@));
            assert(views(v@).subrange(0, i as int + 1) =~= views(v@).subrange(0, i as int).push(
                v@[i as int]@,
            ));
        }
        i = i + 1;
    }
    proof {
        assert(views(v@).subrange(0, v@.len() as int) =~= views(v@));
    }
    out
}

impl ResourceDescriptor {
    /// A copy with the same model.
    pub fn duplicate(&self) -> (r: ResourceDescriptor)
        ensures
            r@ == self@,
    {
        ResourceDescriptor {
            group: match &self.group {
                Some(g) => Some(g.clone()),
                None => None,
            },
            version: match &self.version {
                Some(v) => Some(v.clone()),
                None => None,
            },
            kind: self.kind.clone(),
            name: self.name.clone(),
            singular_name: self.singular_name.clone(),
            short_names: copy_names(&self.short_names),
            namespaced: self.namespaced,
        }
    }

    /// The API group for request paths: empty for the core API, else the group.
    pub fn api_group(&self) -> (r: String)
        requires
            self.group is Some,
        ensures
            self@.group->0 == core_group() ==> r@ == Seq::<char>::empty(),
            self@.group->0 != core_group() ==> r@ == self@.group->0,
    {
        let group = self.group.as_ref().unwrap();
        let core = core_name();
        if str_eq(group.as_str(), core.as_str()) {
            String::new()
        } else {
            group.clone()
        }
    }

    /// The `apiVersion` of objects of this type: the version alone for the
    /// core API, else `"<group>/<version>"`.
    pub fn api_version(&self) -> (r: String)
        requires
            self.group is Some,
            self.version is Some,
        ensures
            self@.group->0 == core_group() ==> r@ == self@.version->0,
            self@.group->0 != core_group() ==> r@ == self@.group->0 + seq!['/']
                + self@.version->0,
    {
        let group = self.group.as_ref().unwrap();
        let version = self.version.as_ref().unwrap();
        let core = core_name();
        if str_eq(group.as_str(), core.as_str()) {
            version.clone()
        } else {
            let mut out = group.clone();
            out.append("/");
            out.append(version.as_str());
            proof {
                reveal_strlit("/");
            }
            out
        }
    }
}

/// Matching is by exact equality with one of the four names and nothing else:
/// a prefix, an extension or a variant of a name designates a descriptor only
/// when it is itself one of its names.
pub proof fn lemma_exact_names(d: DescriptorModel, r: Seq<char>)
    ensures
        names_resource(d, r) <==> (r == d.name || r == d.singular_name || (exists|k: int|
            0 <= k < d.short_names.len() && d.short_names[k] == r) || (d.group is Some && r
            == d.name + seq!['.'] + d.group->0)),
        r.len() < d.name.len() && r == d.name.subrange(0, r.len() as int) && r != d.singular_name
            && !d.short_names.contains(r) && !(d.group is Some && r == qualified_name(
            d.name,
            d.group->0,
        )) ==> !names_resource(d, r),
{
    if d.short_names.contains(r) {
        let k = choose|k: int| 0 <= k < d.short_names.len() && d.short_names[k] == r;
    }
}

/// The first descriptor of `api_resources` that `resource` designates.
pub fn find_resource(resource: &str, api_resources: &[ResourceDescriptor]) -> (r: Option<
    ResourceDescriptor,
>)
    ensures
        match first_match(models(api_resources@), resource@) {
            Some(i) => r is Some && r->0@ == api_resources@[i]@,
            None => r is None,
        },
{
    let ghost ms = models(api_resources@);
    let mut i: usize = 0;
    while i < api_resources.len()
        invariant
            i <= api_resources@.len(),
            ms == models(api_resources@),
            forall|j: int| 0 <= j < i ==> !names_resource(#[trigger] ms[j], resource@),
        decreases api_resources@.len() - i,
    {
        if match_resource(resource, &api_resources[i]) {
            proof {
                assert(names_resource(ms[i as int], resource@));
                let k = first_match(ms, resource@)->0;
                assert(0 <= k < ms.len() && names_resource(ms[k], resource@));
                if k < i {
                } else if k > i {
                    assert(!names_resource(ms[i as int], resource@));
                }
                assert(k == i);
            }
            return Some(api_resources[i].duplicate());
        }
        i = i + 1;
    }
    None
}

} // verus!
