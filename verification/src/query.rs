//! Errors of the retrieval-augmented query pipeline and of the semantic search under it.

use vstd::prelude::*;

verus! {

/// Errors of semantic search. The vector database's and the relational database's errors are
/// held by their messages.
#[derive(Debug)]
pub enum SearchError {
    /// Vector database error.
    Vector(String),
    /// Embedding error.
    Embedding(String),
    /// Relational database error.
    Database(String),
}

/// The message of a search error.
pub open spec fn search_message(e: SearchError) -> Seq<char> {
    match e {
        SearchError::Vector(s) => "Vector error: "@ + s@,
        SearchError::Embedding(s) => "Embedding error: "@ + s@,
        SearchError::Database(s) => "Database error: "@ + s@,
    }
}

impl SearchError {
    /// The error's message.
    pub fn message(&self) -> (r: String)
        ensures
            r@ == search_message(*self),
    {
        let r = match self {
            SearchError::Vector(s) => String::from_str("Vector error: ").concat(s.as_str()),
            SearchError::Embedding(s) => String::from_str("Embedding error: ").concat(s.as_str()),
            SearchError::Database(s) => String::from_str("Database error: ").concat(s.as_str()),
        };
        assert(r@ =~= search_message(*self));
        r
    }
}

/// Errors of the query pipeline.
#[derive(Debug)]
pub enum QueryError {
    /// The search for context failed.
    Search(SearchError),
    /// The language model failed.
    Llm(String),
    /// The search found no relevant context.
    NoContext,
}

/// The message of a query error.
pub open spec fn query_message(e: QueryError) -> Seq<char> {
    match e {
        QueryError::Search(s) => "Search error: "@ + search_message(s),
        QueryError::Llm(s) => "LLM error: "@ + s@,
        QueryError::NoContext => "No relevant context found"@,
    }
}

impl QueryError {
    /// The error's message.
    pub fn message(&self) -> (r: String)
        ensures
            r@ == query_message(*self),
    {
        let r = match self {
            QueryError::Search(s) => String::from_str("Search error: ").concat(s.message().as_str()),
            QueryError::Llm(s) => String::from_str("LLM error: ").concat(s.as_str()),
            QueryError::NoContext => String::from_str("No relevant context found"),
        };
        proof {
            reveal_strlit("No relevant context found");
        }
        assert(r@ =~= query_message(*self));
        r
    }
}

impl From<SearchError> for QueryError {
    fn from(e: SearchError) -> (r: Self) {
        QueryError::Search(e)
    }
}

impl vstd::std_specs::convert::FromSpecImpl<SearchError> for QueryError {
    open spec fn obeys_from_spec() -> bool {
        true
    }

    open spec fn from_spec(v: SearchError) -> Self {
        QueryError::Search(v)
    }
}

} // verus!
