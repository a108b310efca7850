//! The addressing grammar: `<resource>` or `<resource>/<namespace>`, resolved
//! against a catalog of descriptors and the active context's default namespace.

use vstd::prelude::*;
pub use crate::descriptor::find_resource;
use crate::descriptor::{
    first_match, models, DescriptorModel, ResourceDescriptor,
};
use crate::text::{join_with, lemma_split_join, split_at_char, split_segments, views};

verus! {

/// One named context of the client configuration, with the namespace it
/// selects by default, if any.
#[derive(Clone, Debug)]
pub struct ContextEntry {
    pub name: String,
    pub namespace: Option<String>,
}

pub open spec fn context_model(c: ContextEntry) -> (Seq<char>, Option<Seq<char>>) {
    (c.name@, crate::descriptor::opt_view(c.namespace))
}

pub open spec fn context_models(cs: Seq<ContextEntry>) -> Seq<(Seq<char>, Option<Seq<char>>)> {
    cs.map_values(|c: ContextEntry| context_model(c))
}

/// The default namespace that the first context named `name` records.
pub open spec fn context_default(cs: Seq<(Seq<char>, Option<Seq<char>>)>, name: Seq<char>) -> Option<
    Seq<char>,
>
    decreases cs.len(),
{
    if cs.len() == 0 {
        None
    } else if cs[0].0 == name {
        cs[0].1
    } else {
        context_default(cs.drop_first(), name)
    }
}

/// The namespace used when none is given in any configuration.
pub open spec fn fallback_namespace() -> Seq<char> {
    seq!['d', 'e', 'f', 'a', 'u', 'l', 't']
}

/// The namespace chain: the explicit one, else the context's default, else `default`.
pub open spec fn resolved_namespace(
    explicit: Option<Seq<char>>,
    context_ns: Option<Seq<char>>,
) -> Seq<char> {
    match explicit {
        Some(n) => n,
        None => match context_ns {
            Some(n) => n,
            None => fallback_namespace(),
        },
    }
}

/// The default namespace recorded for `context`, looked up in `contexts`.
pub fn context_namespace(contexts: &[ContextEntry], context: &str) -> (r: Option<String>)
    ensures
        crate::descriptor::opt_view(r) == context_default(context_models(contexts@), context@),
{
    let ghost cs = context_models(contexts@);
    let mut i: usize = 0;
    proof {
        assert(cs.subrange(0, cs.len() as int) =~= cs);
    }
    while i < contexts.len()
        invariant
            i <= contexts@.len(),
            cs == context_models(contexts@),
            context_default(cs, context@) == context_default(cs.subrange(i as int, cs.len() as int), context@),
        decreases contexts@.len() - i,
    {
        let ghost rest = cs.subrange(i as int, cs.len() as int);
        proof {
            assert(rest.drop_first() =~= cs.subrange(i as int + 1, cs.len() as int));
            assert(rest[0] == context_model(contexts@[i as int]));
        }
        if crate::descriptor::str_eq(contexts[i].name.as_str(), context) {
            return match &contexts[i].namespace {
                Some(n) => Some(n.clone()),
                None => None,
            };
        }
        i = i + 1;
    }
    proof {
        assert(cs.subrange(cs.len() as int, cs.len() as int) =~= Seq::<(Seq<char>, Option<Seq<char>>)>::empty());
    }
    None
}

/// Resolves the namespace of a request: `namespace` if given, else the
/// default namespace of `context` in `contexts`, else `default`.
pub fn determine_namespace(namespace: Option<String>, context: &str, contexts: &[ContextEntry]) -> (r:
    String)
    ensures
        r@ == resolved_namespace(
            crate::descriptor::opt_view(namespace),
            context_default(context_models(contexts@), context@),
        ),
{
    match namespace {
        Some(ns) => ns,
        None => match context_namespace(contexts, context) {
            Some(ns) => ns,
            None => {
                proof {
                    reveal_strlit("default");
                }
                String::from_str("default")
            },
        },
    }
}

/// A resolved address: the resource type and the namespace to list in.
pub struct KubernetesUrl {
    pub resource: ResourceDescriptor,
    pub namespace: String,
}

/// Why an address was refused.
#[derive(Clone, Debug, PartialEq, Eq)]
pub enum ParseError {
    EmptyUrl,
    InvalidFormat(String),
    ResourceNotFound(String),
}

pub ghost enum ParseErrorModel {
    EmptyUrl,
    InvalidFormat(Seq<char>),
    ResourceNotFound(Seq<char>),
}

impl View for ParseError {
    type V = ParseErrorModel;

    open spec fn view(&self) -> ParseErrorModel {
        match self {
            ParseError::EmptyUrl => ParseErrorModel::EmptyUrl,
            ParseError::InvalidFormat(s) => ParseErrorModel::InvalidFormat(s@),
            ParseError::ResourceNotFound(s) => ParseErrorModel::ResourceNotFound(s@),
        }
    }
}

/// The outcome of resolving `url`: the index in `ds` of the designated
/// descriptor and the namespace, or the error. `default_ns` is the namespace
/// used when the address names none.
pub open spec fn parse_address(
    url: Seq<char>,
    default_ns: Seq<char>,
    ds: Seq<DescriptorModel>,
) -> Result<(int, Seq<char>), ParseErrorModel> {
    if url.len() == 0 {
        Err(ParseErrorModel::EmptyUrl)
    } else {
        let parts = split_at_char(url, '/');
        if parts.len() == 1 || parts.len() == 2 {
            let ns = if parts.len() == 1 {
                default_ns
            } else {
                parts[1]
            };
            match first_match(ds, parts[0]) {
                Some(i) => Ok((i, ns)),
                None => Err(ParseErrorModel::ResourceNotFound(parts[0])),
            }
        } else {
            Err(ParseErrorModel::InvalidFormat(url))
        }
    }
}

pub const SUPPORTED_FORMATS: &'static str = "Supported formats:
- `pod` => pod in default namespace
- `pod/namespace` => Pod in `something` namespace
- `node/something` => For non-namespaced resources, namespace is ignored";

impl ParseError {
    /// The message shown to the user; a format error adds the grammar.
    pub fn message(&self) -> (r: String)
        ensures
            self is EmptyUrl ==> r@ == "URL is empty"@,
            self is InvalidFormat ==> r@ == "Invalid URL format: "@ + self->InvalidFormat_0@
                + "\n\n"@ + SUPPORTED_FORMATS@,
            self is ResourceNotFound ==> r@ == "Resource '"@ + self->ResourceNotFound_0@
                + "' not found"@,
    {
        match self {
            ParseError::EmptyUrl => String::from_str("URL is empty"),
            ParseError::InvalidFormat(url) => {
                let mut out = String::from_str("Invalid URL format: ");
                out.append(url.as_str());
                out.append("\n\n");
                out.append(SUPPORTED_FORMATS);
                out
            },
            ParseError::ResourceNotFound(resource) => {
                let mut out = String::from_str("Resource '");
                out.append(resource.as_str());
                out.append("' not found");
                out
            },
        }
    }
}

impl KubernetesUrl {
    /// Resolves `url` against `api_resources`; a bare resource name takes the
    /// namespace recorded for `context` in `contexts`, or `default`.
    pub fn parse(
        url: &str,
        context: &str,
        contexts: &[ContextEntry],
        api_resources: &[ResourceDescriptor],
    ) -> (r: Result<KubernetesUrl, ParseError>)
        ensures
            match parse_address(
                url@,
                resolved_namespace(None, context_default(context_models(contexts@), context@)),
                models(api_resources@),
            ) {
                Ok((i, ns)) => r is Ok && r->Ok_0.resource@ == api_resources@[i]@
                    && r->Ok_0.namespace@ == ns,
                Err(e) => r is Err && r->Err_0@ == e,
            },
    {
        if url.unicode_len() == 0 {
            return Err(ParseError::EmptyUrl);
        }
        let mut parts = split_segments(url, '/');
        if parts.len() != 1 && parts.len() != 2 {
            proof {
                assert(views(parts@).len() == parts@.len());
            }
            return Err(ParseError::InvalidFormat(url.to_string()));
        }
        let ghost vs = views(parts@);
        let namespace = if parts.len() == 1 {
            determine_namespace(None, context, contexts)
        } else {
            let ns = parts.pop().unwrap();
            proof {
                assert(ns@ == vs[1]);
            }
            ns
        };
        let resource = parts.swap_remove(0);
        proof {
            assert(resource@ == vs[0]);
        }
        match find_resource(resource.as_str(), api_resources) {
            Some(found) => Ok(KubernetesUrl { resource: found, namespace }),
            None => Err(ParseError::ResourceNotFound(resource)),
        }
    }
}

/// A bare name that designates a descriptor resolves to the first such
/// descriptor, in the namespace of the default chain.
pub proof fn lemma_bare_name_resolves(
    r: Seq<char>,
    context_ns: Option<Seq<char>>,
    ds: Seq<DescriptorModel>,
)
    requires
        r.len() > 0,
        crate::text::free_of(r, '/'),
        first_match(ds, r) is Some,
    ensures
        parse_address(r, resolved_namespace(None, context_ns), ds) == Ok::<
            (int, Seq<char>),
            ParseErrorModel,
        >((first_match(ds, r)->0, resolved_namespace(None, context_ns))),
        resolved_namespace(None, context_ns) == match context_ns {
            Some(n) => n,
            None => fallback_namespace(),
        },
{
    lemma_split_join(seq![r], '/');
    assert(join_with(seq![r], seq!['/']) == r);
}

/// `"<r>/<n>"` resolves to namespace `n` exactly, whatever the descriptor's
/// scope, whenever `r` designates a descriptor.
pub proof fn lemma_explicit_namespace(
    r: Seq<char>,
    n: Seq<char>,
    default_ns: Seq<char>,
    ds: Seq<DescriptorModel>,
)
    requires
        crate::text::free_of(r, '/'),
        crate::text::free_of(n, '/'),
        first_match(ds, r) is Some,
    ensures
        parse_address(r + seq!['/'] + n, default_ns, ds) == Ok::<
            (int, Seq<char>),
            ParseErrorModel,
        >((first_match(ds, r)->0, n)),
{
    let ls = seq![r, n];
    assert(ls.drop_last() =~= seq![r]);
    lemma_split_join(ls, '/');
    assert(join_with(seq![r], seq!['/']) == r);
    assert(ls.last() == n);
    assert(join_with(ls, seq!['/']) == join_with(seq![r], seq!['/']) + seq!['/'] + n);
    assert((r + seq!['/'] + n).len() > 0);
}

/// An address of three or more `/`-separated segments is refused as
/// malformed, naming the whole address; an empty address is refused as empty.
pub proof fn lemma_segment_count(url: Seq<char>, default_ns: Seq<char>, ds: Seq<DescriptorModel>)
    ensures
        url.len() == 0 ==> parse_address(url, default_ns, ds) == Err::<
            (int, Seq<char>),
            ParseErrorModel,
        >(ParseErrorModel::EmptyUrl),
        url.len() > 0 && split_at_char(url, '/').len() >= 3 ==> parse_address(url, default_ns, ds)
            == Err::<(int, Seq<char>), ParseErrorModel>(ParseErrorModel::InvalidFormat(url)),
{
}

} // verus!
