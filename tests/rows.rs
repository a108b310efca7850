use kuqu::config::{detect_context, Args, ContextError};
use kuqu::descriptor::ResourceDescriptor;
use kuqu::provider::{
    next_chunk_action, run_chunks, scan_columns, table_rows, ChunkAction, ChunkEvent, ProviderError,
};
use kuqu::text::{join_lines, split_segments};
use kuqu::url::{KubernetesUrl, ParseError};

fn pods_url() -> KubernetesUrl {
    KubernetesUrl {
        resource: ResourceDescriptor {
            group: Some("core".to_string()),
            version: Some("v1".to_string()),
            kind: "Pod".to_string(),
            name: "pods".to_string(),
            singular_name: "pod".to_string(),
            short_names: vec!["po".to_string()],
            namespaced: true,
        },
        namespace: "team-a".to_string(),
    }
}

#[test]
fn empty_listing_is_an_error() {
    match table_rows(&pods_url(), &Vec::new()) {
        Err(e) => {
            assert!(matches!(e, ProviderError::NoItems { .. }));
            assert_eq!(e.message(), "No items found for resource 'Pod' in namespace 'team-a'");
        }
        Ok(_) => panic!("an empty listing must not make a table"),
    }
}

#[test]
fn rows_are_joined_by_newlines() {
    let lines = vec!["{\"a\":1}".to_string(), "{\"a\":2}".to_string(), "{\"b\":3}".to_string()];
    let blob = table_rows(&pods_url(), &lines).ok().unwrap();
    assert_eq!(blob, "{\"a\":1}\n{\"a\":2}\n{\"b\":3}");
    assert_eq!(split_segments(&blob, '\n'), lines);
}

#[test]
fn one_row_has_no_newline() {
    let blob = table_rows(&pods_url(), &vec!["{}".to_string()]).ok().unwrap();
    assert_eq!(blob, "{}");
}

#[test]
fn invalid_url_message_wraps_parse_error() {
    let e = ProviderError::InvalidUrl { url: "a/b/c".to_string(), error: ParseError::EmptyUrl };
    assert_eq!(e.message(), "Invalid Kubernetes URL 'a/b/c': URL is empty");
}

#[test]
fn split_and_join() {
    assert_eq!(split_segments("", '/'), vec![String::new()]);
    assert_eq!(split_segments("a//b", '/'), vec!["a".to_string(), String::new(), "b".to_string()]);
    assert_eq!(split_segments("é/ü", '/'), vec!["é".to_string(), "ü".to_string()]);
    assert_eq!(join_lines(&vec!["x".to_string(), "y".to_string()], ", "), "x, y");
    assert_eq!(join_lines(&Vec::new(), ", "), "");
}

#[test]
fn valid_projection_is_used() {
    assert_eq!(scan_columns(4, Some(&vec![2, 0])), vec![2, 0]);
    assert_eq!(scan_columns(4, Some(&Vec::new())), Vec::<usize>::new());
}

#[test]
fn invalid_projection_falls_back_to_all_columns() {
    assert_eq!(scan_columns(3, Some(&vec![1, 3])), vec![0, 1, 2]);
    assert_eq!(scan_columns(3, None), vec![0, 1, 2]);
}

#[test]
fn chunk_decisions() {
    assert_eq!(next_chunk_action(0, ChunkEvent::Parsed), ChunkAction::Keep);
    assert_eq!(next_chunk_action(0, ChunkEvent::Failed), ChunkAction::Fail);
    assert_eq!(next_chunk_action(2, ChunkEvent::Failed), ChunkAction::Finish);
    assert_eq!(next_chunk_action(0, ChunkEvent::End), ChunkAction::Finish);
}

#[test]
fn materialization_tolerates_late_failures() {
    assert_eq!(run_chunks(&Vec::new()), Some(0));
    assert_eq!(run_chunks(&vec![true, true, true]), Some(3));
    assert_eq!(run_chunks(&vec![true, false, true]), Some(1));
    assert_eq!(run_chunks(&vec![false, true]), None);
}

#[test]
fn context_choice() {
    let explicit = Args { context: Some("dev".to_string()), query: "select 1".to_string() };
    assert_eq!(detect_context(&explicit, Some("prod".to_string())), Ok("dev".to_string()));
    let implicit = Args { context: None, query: "select 1".to_string() };
    assert_eq!(detect_context(&implicit, Some("prod".to_string())), Ok("prod".to_string()));
    assert_eq!(detect_context(&implicit, None), Err(ContextError::CurrentContextNotSet));
    assert_eq!(ContextError::CurrentContextNotSet.message(), "current_context is not set");
}
