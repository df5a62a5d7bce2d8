use flow_node::query::{QueryError, SearchError};

#[test]
fn search_error_messages() {
    assert_eq!(SearchError::Vector("collection missing".to_string()).message(), "Vector error: collection missing");
    assert_eq!(SearchError::Embedding("model offline".to_string()).message(), "Embedding error: model offline");
    assert_eq!(SearchError::Database("locked".to_string()).message(), "Database error: locked");
}

#[test]
fn query_error_messages() {
    let wrapped: QueryError = SearchError::Embedding("model offline".to_string()).into();
    assert_eq!(wrapped.message(), "Search error: Embedding error: model offline");
    assert_eq!(QueryError::Llm("timeout".to_string()).message(), "LLM error: timeout");
    assert_eq!(QueryError::NoContext.message(), "No relevant context found");
}
