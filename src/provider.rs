//! The table side: turning a listing into a row blob, choosing the columns a
//! scan advertises, and deciding, chunk by chunk, what a materialization keeps.

use vstd::prelude::*;
use crate::text::{join_lines, join_with, lemma_split_join, split_at_char, views, free_of};
use crate::url::{KubernetesUrl, ParseError};

verus! {

/// Why no table could be made for an address.
pub enum ProviderError {
    /// The address did not resolve.
    InvalidUrl { url: String, error: ParseError },
    /// The listing returned no objects.
    NoItems { kind: String, namespace: String },
}

impl ProviderError {
    /// The message shown to the user.
    pub fn message(&self) -> (r: String)
        ensures
            match self {
                ProviderError::InvalidUrl { url, error } => exists|m: String|
                    r@ == "Invalid Kubernetes URL '"@ + url@ + "': "@ + m@
                        && #[trigger] error_message_of(*error, m),
                ProviderError::NoItems { kind, namespace } => r@ == "No items found for resource '"@
                    + kind@ + "' in namespace '"@ + namespace@ + "'"@,
            },
    {
        match self {
            ProviderError::InvalidUrl { url, error } => {
                let m = error.message();
                let mut out = String::from_str("Invalid Kubernetes URL '");
                out.append(url.as_str());
                out.append("': ");
                out.append(m.as_str());
                proof {
                    assert(error_message_of(*error, m));
                }
                out
            },
            ProviderError::NoItems { kind, namespace } => {
                let mut out = String::from_str("No items found for resource '");
                out.append(kind.as_str());
                out.append("' in namespace '");
                out.append(namespace.as_str());
                out.append("'");
                out
            },
        }
    }
}

/// `m` is the message of `e`, as `ParseError::message` states it.
pub open spec fn error_message_of(e: ParseError, m: String) -> bool {
    &&& e is EmptyUrl ==> m@ == "URL is empty"@
    &&& e is InvalidFormat ==> m@ == "Invalid URL format: "@ + e->InvalidFormat_0@ + "\n\n"@
        + crate::url::SUPPORTED_FORMATS@
    &&& e is ResourceNotFound ==> m@ == "Resource '"@ + e->ResourceNotFound_0@ + "' not found"@
}

/// The row blob of a listing whose objects were encoded one per line in
/// `lines`: the lines joined with newlines. An empty listing is an error
/// naming the resource kind and namespace, not an empty table.
pub fn table_rows(url: &KubernetesUrl, lines: &Vec<String>) -> (r: Result<String, ProviderError>)
    ensures
        lines@.len() == 0 <==> r is Err,
        match r {
            Ok(blob) => blob@ == join_with(views(lines@), seq!['\n']),
            Err(ProviderError::NoItems { kind, namespace }) => kind@ == url.resource.kind@
                && namespace@ == url.namespace@,
            Err(_) => false,
        },
{
    if lines.len() == 0 {
        return Err(
            ProviderError::NoItems {
                kind: url.resource.kind.clone(),
                namespace: url.namespace.clone(),
            },
        );
    }
    proof {
        reveal_strlit("\n");
        assert("\n"@ =~= seq!['\n']);
    }
    Ok(join_lines(lines, "\n"))
}

/// A blob of `N >= 1` records that hold no newline splits back, at newlines,
/// into exactly those `N` records.
pub proof fn lemma_rows_round_trip(lines: Seq<Seq<char>>)
    requires
        lines.len() >= 1,
        forall|i: int| 0 <= i < lines.len() ==> free_of(#[trigger] lines[i], '\n'),
    ensures
        split_at_char(join_with(lines, seq!['\n']), '\n') == lines,
        split_at_char(join_with(lines, seq!['\n']), '\n').len() == lines.len(),
{
    lemma_split_join(lines, '\n');
}

/// `true` when every index of `p` is below `n`.
pub open spec fn all_below(p: Seq<usize>, n: usize) -> bool {
    forall|i: int| 0 <= i < p.len() ==> p[i] < n
}

/// The indices of the columns a scan advertises, out of `field_count`: the
/// requested projection when every index exists, else all columns in order.
pub fn scan_columns(field_count: usize, projection: Option<&Vec<usize>>) -> (r: Vec<usize>)
    ensures
        match projection {
            Some(p) => all_below(p@, field_count) ==> r@ == p@,
            None => true,
        },
        (projection is None || !all_below(projection->0@, field_count)) ==> (r@.len()
            == field_count && forall|i: int| 0 <= i < field_count ==> r@[i] == i),
{
    if let Some(p) = projection {
        let mut i: usize = 0;
        let mut valid = true;
        while i < p.len()
            invariant
                i <= p@.len(),
                valid == forall|j: int| 0 <= j < i ==> p@[j] < field_count,
            decreases p@.len() - i,
        {
            valid = valid && p[i] < field_count;
            i = i + 1;
        }
        if valid {
            return p.clone();
        }
    }
    let mut all: Vec<usize> = Vec::new();
    let mut k: usize = 0;
    while k < field_count
        invariant
            k <= field_count,
            all@.len() == k,
            forall|i: int| 0 <= i < k ==> all@[i] == i,
        decreases field_count - k,
    {
        all.push(k);
        k = k + 1;
    }
    all
}

/// What the reader reported for the next chunk of rows.
#[derive(Clone, Copy, Debug, PartialEq, Eq)]
pub enum ChunkEvent {
    Parsed,
    Failed,
    End,
}

/// What materialization does next.
#[derive(Clone, Copy, Debug, PartialEq, Eq)]
pub enum ChunkAction {
    /// Keep the chunk and read on.
    Keep,
    /// Stop and emit the chunks kept so far (none: an empty batch).
    Finish,
    /// Stop and fail with the reader's error.
    Fail,
}

/// The next step of materialization, after `kept` chunks were kept: a parsed
/// chunk is kept; a failure after at least one kept chunk truncates the rows
/// there; a failure of the first chunk fails the whole materialization.
pub fn next_chunk_action(kept: usize, event: ChunkEvent) -> (r: ChunkAction)
    ensures
        event is Parsed ==> r is Keep,
        event is End ==> r is Finish,
        event is Failed ==> (kept > 0 <==> r is Finish) && (kept == 0 <==> r is Fail),
{
    match event {
        ChunkEvent::Parsed => ChunkAction::Keep,
        ChunkEvent::End => ChunkAction::Finish,
        ChunkEvent::Failed => if kept > 0 {
            ChunkAction::Finish
        } else {
            ChunkAction::Fail
        },
    }
}

/// The outcome of materializing a stream whose chunks parse as `parsed` says:
/// the number of chunks kept, or `None` when materialization fails.
pub open spec fn materialized(parsed: Seq<bool>) -> Option<nat> {
    if parsed.len() > 0 && !parsed[0] {
        None
    } else {
        Some(leading_parsed(parsed))
    }
}

/// The number of chunks before the first failure.
pub open spec fn leading_parsed(parsed: Seq<bool>) -> nat
    decreases parsed.len(),
{
    if parsed.len() == 0 || !parsed[0] {
        0
    } else {
        1 + leading_parsed(parsed.drop_first())
    }
}

/// Drives `next_chunk_action` over the chunk outcomes `parsed`, as a reader
/// loop does, and reports how many chunks it kept, or `None` on failure.
pub fn run_chunks(parsed: &Vec<bool>) -> (r: Option<usize>)
    ensures
        match materialized(parsed@) {
            Some(n) => r == Some(n as usize),
            None => r is None,
        },
{
    let mut kept: usize = 0;
    proof {
        assert(parsed@.subrange(0, parsed@.len() as int) =~= parsed@);
    }
    while kept < parsed.len()
        invariant
            kept <= parsed@.len(),
            forall|j: int| 0 <= j < kept ==> parsed@[j],
            leading_parsed(parsed@) == kept + leading_parsed(
                parsed@.subrange(kept as int, parsed@.len() as int),
            ),
        decreases parsed@.len() - kept,
    {
        let ghost rest = parsed@.subrange(kept as int, parsed@.len() as int);
        proof {
            assert(rest.drop_first() =~= parsed@.subrange(kept as int + 1, parsed@.len() as int));
        }
        let event = if parsed[kept] {
            ChunkEvent::Parsed
        } else {
            ChunkEvent::Failed
        };
        match next_chunk_action(kept, event) {
            ChunkAction::Keep => {
                kept = kept + 1;
            },
            ChunkAction::Finish => {
                return Some(kept);
            },
            ChunkAction::Fail => {
                return None;
            },
        }
    }
    proof {
        assert(parsed@.subrange(kept as int, parsed@.len() as int).len() == 0);
    }
    match next_chunk_action(kept, ChunkEvent::End) {
        ChunkAction::Fail => None,
        _ => Some(kept),
    }
}

/// An empty stream materializes to zero chunks without failing, and `N`
/// chunks that all parse materialize to exactly `N`.
pub proof fn lemma_complete_streams(parsed: Seq<bool>)
    requires
        forall|i: int| 0 <= i < parsed.len() ==> parsed[i],
    ensures
        materialized(parsed) == Some(parsed.len()),
    decreases parsed.len(),
{
    if parsed.len() > 0 {
        assert forall|i: int| 0 <= i < parsed.drop_first().len() implies parsed.drop_first()[i] by {
            assert(parsed.drop_first()[i] == parsed[i + 1]);
        }
        lemma_complete_streams(parsed.drop_first());
    }
}

} // verus!
