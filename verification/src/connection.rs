//! What has to be known before a database can be inspected: the parts of a
//! connection URL, and the statements and limits of the setup.

use crate::inspector::DatabaseInspector;
use crate::text::{clone_text, lemma_first_occurrence, lemma_no_occurrence, str_eq, text_of};
use vstd::prelude::*;
use vstd::string::*;

verus! {

/// `url::ParseError`, the error with which `url::Url::parse` refuses a text.
/// Nothing is known of a value of it: it is only told from success.
#[verifier::external_type_specification]
#[verifier::external_body]
pub struct ExParseError(url::ParseError);

/// One pair of a URL's query, decoded.
#[derive(Debug, PartialEq, Eq)]
pub struct QueryPair {
    pub name: String,
    pub value: String,
}

pub struct QueryPairView {
    pub name: Seq<char>,
    pub value: Seq<char>,
}

impl View for QueryPair {
    type V = QueryPairView;

    open spec fn view(&self) -> QueryPairView {
        QueryPairView { name: self.name@, value: self.value@ }
    }
}

/// The parts of a parsed URL that a connection is set up from.
#[derive(Debug, PartialEq, Eq)]
pub struct UrlParts {
    pub host: Option<String>,
    pub username: String,
    pub password: Option<String>,
    pub path: String,
    pub query: Vec<QueryPair>,
}

pub struct UrlPartsView {
    pub host: Option<Seq<char>>,
    pub username: Seq<char>,
    pub password: Option<Seq<char>>,
    pub path: Seq<char>,
    pub query: Seq<QueryPairView>,
}

impl View for UrlParts {
    type V = UrlPartsView;

    open spec fn view(&self) -> UrlPartsView {
        UrlPartsView {
            host: text_of(self.host),
            username: self.username@,
            password: text_of(self.password),
            path: self.path@,
            query: self.query@.map_values(|p: QueryPair| p@),
        }
    }
}

/// The parts of the absolute URL that a text spells, or none where it
/// spells no such URL.
pub uninterp spec fn url_parts(input: Seq<char>) -> Option<UrlPartsView>;

/// Parses an absolute URL with `url::Url::parse` and reads its parts with
/// `host_str`, `username`, `password`, `path` and `query_pairs`. Nothing is
/// proved of the parser: its result is only given the name `url_parts`.
#[verifier::external_body]
fn parse_url(input: &str) -> (parsed: Result<UrlParts, url::ParseError>)
    ensures
        match parsed {
            Ok(parts) => url_parts(input@) == Some(parts@),
            Err(_) => url_parts(input@) is None,
        },
{
    let u = url::Url::parse(input)?;
    Ok(
        UrlParts {
            host: u.host_str().map(String::from),
            username: String::from(u.username()),
            password: u.password().map(String::from),
            path: String::from(u.path()),
            query: u.query_pairs().map(
                |(k, v)| QueryPair { name: k.into_owned(), value: v.into_owned() },
            ).collect(),
        },
    )
}

/// Why a connection cannot be set up from a URL.
#[derive(Clone, Copy, Debug, PartialEq, Eq, Structural)]
pub enum ConnectionError {
    /// The text is no absolute URL.
    InvalidUrl,
    /// The URL has an empty path, so it names no database.
    MissingDatabase,
    /// The URL's query has no `schema` parameter.
    MissingSchema,
}

/// How a PostgreSQL database is set up for inspection. The database is
/// created on a first connection without a database name, where a failure
/// is ignored: the database may exist. The namespace is created on the
/// connection to the database, where a failure is an error.
#[derive(Debug, PartialEq, Eq)]
pub struct PostgresSetup {
    pub host: Option<String>,
    pub user: String,
    pub password: Option<String>,
    pub db_name: String,
    pub schema_name: String,
    pub connect_timeout_secs: u64,
    pub root_connection_limit: u32,
    pub connection_limit: u32,
    pub create_database: String,
    pub create_schema: String,
}

pub struct PostgresSetupView {
    pub host: Option<Seq<char>>,
    pub user: Seq<char>,
    pub password: Option<Seq<char>>,
    pub db_name: Seq<char>,
    pub schema_name: Seq<char>,
    pub connect_timeout_secs: nat,
    pub root_connection_limit: nat,
    pub connection_limit: nat,
    pub create_database: Seq<char>,
    pub create_schema: Seq<char>,
}

impl View for PostgresSetup {
    type V = PostgresSetupView;

    open spec fn view(&self) -> PostgresSetupView {
        PostgresSetupView {
            host: text_of(self.host),
            user: self.user@,
            password: text_of(self.password),
            db_name: self.db_name@,
            schema_name: self.schema_name@,
            connect_timeout_secs: self.connect_timeout_secs as nat,
            root_connection_limit: self.root_connection_limit as nat,
            connection_limit: self.connection_limit as nat,
            create_database: self.create_database@,
            create_schema: self.create_schema@,
        }
    }
}

/// How a SQLite database is opened for inspection.
#[derive(Debug, PartialEq, Eq)]
pub struct SqliteSetup {
    pub file_path: String,
    pub connection_limit: u32,
    pub test_mode: bool,
}

/// The names of the pairs of a query, in order.
pub open spec fn parameter_names(query: Seq<QueryPairView>) -> Seq<Seq<char>> {
    query.map_values(|p: QueryPairView| p.name)
}

/// The value of the first pair of that name.
pub open spec fn parameter(query: Seq<QueryPairView>, name: Seq<char>) -> Option<Seq<char>> {
    match parameter_names(query).index_of_first(name) {
        Some(i) => Some(query[i].value),
        None => None,
    }
}

/// The setup that the parts of a URL ask for. The database is named by the
/// path without its first character, the leading slash; the namespace by
/// the query's `schema` parameter.
pub open spec fn setup_for(parts: UrlPartsView) -> Result<PostgresSetupView, ConnectionError> {
    if parts.path.len() == 0 {
        Err(ConnectionError::MissingDatabase)
    } else if parameter(parts.query, "schema"@) is None {
        Err(ConnectionError::MissingSchema)
    } else {
        let db_name = parts.path.subrange(1, parts.path.len() as int);
        let schema_name = parameter(parts.query, "schema"@)->0;
        Ok(
            PostgresSetupView {
                host: parts.host,
                user: parts.username,
                password: parts.password,
                db_name,
                schema_name,
                connect_timeout_secs: 5,
                root_connection_limit: 1,
                connection_limit: 5,
                create_database: "CREATE DATABASE \""@ + db_name + "\";"@,
                create_schema: "CREATE SCHEMA IF NOT EXISTS \""@ + schema_name + "\";"@,
            },
        )
    }
}

/// The setup that a connection URL asks for.
pub open spec fn setup_for_url(url: Seq<char>) -> Result<PostgresSetupView, ConnectionError> {
    match url_parts(url) {
        Some(parts) => setup_for(parts),
        None => Err(ConnectionError::InvalidUrl),
    }
}

/// The value of the first pair of that name in a query.
pub fn query_parameter(query: &Vec<QueryPair>, name: &str) -> (value: Option<String>)
    ensures
        text_of(value) == parameter(query@.map_values(|p: QueryPair| p@), name@),
{
    let ghost pairs = query@.map_values(|p: QueryPair| p@);
    let mut i: usize = 0;
    while i < query.len()
        invariant
            i <= query.len(),
            pairs == query@.map_values(|p: QueryPair| p@),
            forall|j: int| 0 <= j < i ==> parameter_names(pairs)[j] != name@,
        decreases query.len() - i,
    {
        if str_eq(query[i].name.as_str(), name) {
            proof {
                lemma_first_occurrence(parameter_names(pairs), name@, i as int);
            }
            return Some(query[i].value.clone());
        }
        i = i + 1;
    }
    proof {
        lemma_no_occurrence(parameter_names(pairs), name@);
    }
    None
}

/// Plans the setup of a PostgreSQL database from the parts of its URL.
pub fn postgres_setup(parts: &UrlParts) -> (setup: Result<PostgresSetup, ConnectionError>)
    ensures
        match setup_for(parts@) {
            Ok(s) => setup is Ok && setup->Ok_0@ == s,
            Err(e) => setup == Err::<PostgresSetup, ConnectionError>(e),
        },
{
    let length = parts.path.as_str().unicode_len();
    if length == 0 {
        return Err(ConnectionError::MissingDatabase);
    }
    let db_name = String::from_str(parts.path.as_str().substring_char(1, length));
    let schema_name = match query_parameter(&parts.query, "schema") {
        Some(name) => name,
        None => { return Err(ConnectionError::MissingSchema); },
    };
    let mut create_database = String::from_str("CREATE DATABASE \"");
    create_database.append(db_name.as_str());
    create_database.append("\";");
    let mut create_schema = String::from_str("CREATE SCHEMA IF NOT EXISTS \"");
    create_schema.append(schema_name.as_str());
    create_schema.append("\";");
    Ok(
        PostgresSetup {
            host: clone_text(&parts.host),
            user: parts.username.clone(),
            password: clone_text(&parts.password),
            db_name,
            schema_name,
            connect_timeout_secs: 5,
            root_connection_limit: 1,
            connection_limit: 5,
            create_database,
            create_schema,
        },
    )
}

impl dyn DatabaseInspector {
    /// How the SQLite database in a file is opened: with at most five
    /// connections, and not in test mode.
    pub fn sqlite(file_path: String) -> (setup: SqliteSetup)
        ensures
            setup.file_path == file_path,
            setup.connection_limit == 5,
            !setup.test_mode,
    {
        SqliteSetup { file_path, connection_limit: 5, test_mode: false }
    }

    /// Plans the setup of the PostgreSQL database that a URL names. Fails
    /// where the text is no URL, where its path is empty, and where its
    /// query names no schema, in this order.
    pub fn postgres(url: String) -> (setup: Result<PostgresSetup, ConnectionError>)
        ensures
            match setup_for_url(url@) {
                Ok(s) => setup is Ok && setup->Ok_0@ == s,
                Err(e) => setup == Err::<PostgresSetup, ConnectionError>(e),
            },
    {
        match parse_url(url.as_str()) {
            Ok(parts) => postgres_setup(&parts),
            Err(_) => Err(ConnectionError::InvalidUrl),
        }
    }
}

} // verus!
