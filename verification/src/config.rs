//! The settings of the tool: the database to connect to, and where the
//! schema, migration and query files lie.
use vstd::prelude::*;
use std::str::FromStr;
use tokio_postgres::Config as PgConfig;
use crate::text::{copy_string, string_of};

verus! {

/// The whole configuration.
pub struct Config {
    pub database: DatabaseConfig,
    pub schema: SchemaConfig,
    pub migrations: MigrationsConfig,
    pub diff: DiffConfig,
    pub queries: QueriesConfig,
}

/// How to reach the database.
pub struct DatabaseConfig {
    pub url: Option<String>,
    pub host: Option<String>,
    pub port: Option<u16>,
    pub user: Option<String>,
    pub password: Option<String>,
    pub dbname: String,
}

/// How schema differences are produced.
pub struct DiffConfig {
    pub safe: bool,
    pub privileges: bool,
}

/// Where the schema files lie.
pub struct SchemaConfig {
    pub filename: String,
}

/// Where the migration files lie.
pub struct MigrationsConfig {
    pub filename: String,
}

/// Where the query files lie.
pub struct QueriesConfig {
    pub filename: String,
}

/// Differences are produced with drop statements unless told otherwise.
pub fn default_diff_safe() -> (r: bool)
    ensures
        r == false,
{
    false
}

/// Privilege differences are produced unless told otherwise.
pub fn default_diff_privileges() -> (r: bool)
    ensures
        r == true,
{
    true
}

/// The glob of the schema files: `db/schema/**/*.sql`.
pub fn default_schema_filename() -> (r: String)
    ensures
        r@ == "db/schema/**/*.sql"@,
{
    string_of("db/schema/**/*.sql")
}

/// The glob of the migration files: `db/migrations/**/*.sql`.
pub fn default_migrations_filename() -> (r: String)
    ensures
        r@ == "db/migrations/**/*.sql"@,
{
    string_of("db/migrations/**/*.sql")
}

/// The glob of the query files: `db/queries/**/*.sql`.
pub fn default_queries_filename() -> (r: String)
    ensures
        r@ == "db/queries/**/*.sql"@,
{
    string_of("db/queries/**/*.sql")
}

impl Default for DatabaseConfig {
    /// Nothing set, and an empty database name.
    fn default() -> (r: Self)
        ensures
            r.url is None,
            r.host is None,
            r.port is None,
            r.user is None,
            r.password is None,
            r.dbname@ == Seq::<char>::empty(),
    {
        DatabaseConfig { url: None, host: None, port: None, user: None, password: None, dbname: String::new() }
    }
}

impl Default for DiffConfig {
    /// Not safe; with privileges.
    fn default() -> (r: Self)
        ensures
            r.safe == false,
            r.privileges == true,
    {
        DiffConfig { safe: default_diff_safe(), privileges: default_diff_privileges() }
    }
}

impl Default for SchemaConfig {
    /// The default schema glob.
    fn default() -> (r: Self)
        ensures
            r.filename@ == "db/schema/**/*.sql"@,
    {
        SchemaConfig { filename: default_schema_filename() }
    }
}

impl Default for MigrationsConfig {
    /// The default migration glob.
    fn default() -> (r: Self)
        ensures
            r.filename@ == "db/migrations/**/*.sql"@,
    {
        MigrationsConfig { filename: default_migrations_filename() }
    }
}

impl Default for QueriesConfig {
    /// The default query glob.
    fn default() -> (r: Self)
        ensures
            r.filename@ == "db/queries/**/*.sql"@,
    {
        QueriesConfig { filename: default_queries_filename() }
    }
}

/// Whether `c` holds the defaults of every part.
pub open spec fn is_default_config(c: Config) -> bool {
    &&& c.database.url is None
    &&& c.database.host is None
    &&& c.database.port is None
    &&& c.database.user is None
    &&& c.database.password is None
    &&& c.database.dbname@ == Seq::<char>::empty()
    &&& c.schema.filename@ == "db/schema/**/*.sql"@
    &&& c.migrations.filename@ == "db/migrations/**/*.sql"@
    &&& c.diff.safe == false
    &&& c.diff.privileges == true
    &&& c.queries.filename@ == "db/queries/**/*.sql"@
}

impl Default for Config {
    /// The default of every part.
    fn default() -> (r: Self)
        ensures
            is_default_config(r),
    {
        Config {
            database: DatabaseConfig::default(),
            schema: SchemaConfig::default(),
            migrations: MigrationsConfig::default(),
            diff: DiffConfig::default(),
            queries: QueriesConfig::default(),
        }
    }
}

impl Config {
    /// A configuration that shows every setting: empty connection texts,
    /// port 5432, and the default globs and diff options.
    pub fn template() -> (r: Self)
        ensures
            r.database.url matches Some(u) && u@ == Seq::<char>::empty(),
            r.database.host matches Some(h) && h@ == Seq::<char>::empty(),
            r.database.dbname@ == Seq::<char>::empty(),
            r.database.password matches Some(p) && p@ == Seq::<char>::empty(),
            r.database.port == Some(5432u16),
            r.database.user matches Some(u) && u@ == Seq::<char>::empty(),
            r.schema.filename@ == "db/schema/**/*.sql"@,
            r.migrations.filename@ == "db/migrations/**/*.sql"@,
            r.diff.privileges == true,
            r.diff.safe == false,
            r.queries.filename@ == "db/queries/**/*.sql"@,
    {
        Config {
            database: DatabaseConfig {
                url: Some(String::new()),
                host: Some(String::new()),
                dbname: String::new(),
                password: Some(String::new()),
                port: Some(5432),
                user: Some(String::new()),
            },
            schema: SchemaConfig { filename: default_schema_filename() },
            migrations: MigrationsConfig { filename: default_migrations_filename() },
            diff: DiffConfig { privileges: default_diff_privileges(), safe: default_diff_safe() },
            queries: QueriesConfig { filename: default_queries_filename() },
        }
    }
}

/// The name of the user the program runs as, as the system gave it.
pub enum SystemUser {
    /// The system knows no name for the user.
    Unknown,
    /// The name is not valid UTF-8.
    NotUtf8,
    /// The name.
    Name(String),
}

/// Where the database server listens.
pub enum HostSetting {
    /// A host name or address.
    Host(String),
    /// The directory of a Unix socket.
    Path(String),
}

/// The connection settings to apply, in this order, to the connection
/// parameters parsed from `url` (or to empty ones without a URL).
pub struct PgSettings {
    pub url: Option<String>,
    pub host: HostSetting,
    pub port: Option<u16>,
    /// The user name, or why there is none.
    pub user: Result<String, String>,
    pub password: Option<String>,
    pub dbname: String,
}

/// The socket directory used when no host is set.
pub open spec fn default_socket_dir() -> Seq<char> {
    "/var/run/postgresql"@
}

fn copy_opt(s: &Option<String>) -> (r: Option<String>)
    ensures
        match (s, r) {
            (Some(a), Some(b)) => a@ == b@,
            (None, None) => true,
            _ => false,
        },
{
    match s {
        Some(x) => Some(copy_string(x)),
        None => None,
    }
}

impl DatabaseConfig {
    /// The connection settings of this configuration: the host, or the
    /// default socket directory; the user, or the system user when none is
    /// set (why there is none when the system gives no usable name).
    pub fn pg_settings(&self, system_user: SystemUser) -> (r: PgSettings)
        ensures
            match (self.url, r.url) {
                (Some(a), Some(b)) => a@ == b@,
                (None, None) => true,
                _ => false,
            },
            match self.host {
                Some(h) => r.host matches HostSetting::Host(x) && x@ == h@,
                None => r.host matches HostSetting::Path(x) && x@ == default_socket_dir(),
            },
            r.port == self.port,
            match self.user {
                Some(u) => r.user matches Ok(x) && x@ == u@,
                None => match system_user {
                    SystemUser::Name(n) => r.user matches Ok(x) && x@ == n@,
                    SystemUser::Unknown => r.user matches Err(m) && m@
                        == "No database user specified. Fallback to system user name failed."@,
                    SystemUser::NotUtf8 => r.user matches Err(m) && m@
                        == "System user name contains non-UTF-8 characters"@,
                },
            },
            match (self.password, r.password) {
                (Some(a), Some(b)) => a@ == b@,
                (None, None) => true,
                _ => false,
            },
            r.dbname@ == self.dbname@,
    {
        let host = match &self.host {
            Some(h) => HostSetting::Host(copy_string(h)),
            None => HostSetting::Path(string_of("/var/run/postgresql")),
        };
        let user = match &self.user {
            Some(u) => Ok(copy_string(u)),
            None => match system_user {
                SystemUser::Name(n) => Ok(n),
                SystemUser::Unknown => Err(string_of("No database user specified. Fallback to system user name failed.")),
                SystemUser::NotUtf8 => Err(string_of("System user name contains non-UTF-8 characters")),
            },
        };
        PgSettings {
            url: copy_opt(&self.url),
            host,
            port: self.port,
            user,
            password: copy_opt(&self.password),
            dbname: copy_string(&self.dbname),
        }
    }
}

/// `tokio_postgres::Config`, the connection parameters of the PostgreSQL
/// client, carried through as it is.
#[verifier::external_type_specification]
#[verifier::external_body]
pub struct ExPgConfig(PgConfig);

/// A host of the connection parameters.
pub enum PgHost {
    /// A host name or address, reached over TCP.
    Tcp(Seq<char>),
    /// The directory of a Unix socket.
    Unix(Seq<char>),
}

/// The connection parameters this library sets: the hosts and ports in the
/// order they were added, the user, the password as bytes, and the
/// database name.
pub struct PgParams {
    pub hosts: Seq<PgHost>,
    pub ports: Seq<u16>,
    pub user: Option<Seq<char>>,
    pub password: Option<Seq<u8>>,
    pub dbname: Option<Seq<char>>,
}

/// Parameters with nothing set.
pub open spec fn no_params() -> PgParams {
    PgParams { hosts: Seq::empty(), ports: Seq::empty(), user: None, password: None, dbname: None }
}

/// `p` with host `h` added after its hosts.
pub open spec fn with_host(p: PgParams, h: PgHost) -> PgParams {
    PgParams { hosts: p.hosts.push(h), ports: p.ports, user: p.user, password: p.password, dbname: p.dbname }
}

/// `p` with port `port` added after its ports.
pub open spec fn with_port(p: PgParams, port: u16) -> PgParams {
    PgParams { hosts: p.hosts, ports: p.ports.push(port), user: p.user, password: p.password, dbname: p.dbname }
}

/// `p` with its user set to `u`.
pub open spec fn with_user(p: PgParams, u: Seq<char>) -> PgParams {
    PgParams { hosts: p.hosts, ports: p.ports, user: Some(u), password: p.password, dbname: p.dbname }
}

/// `p` with its password set to the bytes `b`.
pub open spec fn with_password(p: PgParams, b: Seq<u8>) -> PgParams {
    PgParams { hosts: p.hosts, ports: p.ports, user: p.user, password: Some(b), dbname: p.dbname }
}

/// `p` with its database name set to `d`.
pub open spec fn with_dbname(p: PgParams, d: Seq<char>) -> PgParams {
    PgParams { hosts: p.hosts, ports: p.ports, user: p.user, password: p.password, dbname: Some(d) }
}

/// The host a host text stands for on Unix: a socket directory when it
/// starts with `/`, a TCP host otherwise.
pub open spec fn host_of(h: Seq<char>) -> PgHost {
    if h.len() > 0 && h[0] == '/' {
        PgHost::Unix(h)
    } else {
        PgHost::Tcp(h)
    }
}

/// What `tokio_postgres::Config::from_str` makes of `url` (a
/// `postgresql://` URL or a `key=value` connection string): the parameters
/// it sets, or `None` when it refuses the text.
pub uninterp spec fn pg_url_params(url: Seq<char>) -> Option<PgParams>;

/// The client's connection parameters, with the model of what is set in
/// them.
pub struct ConnectionParams {
    config: PgConfig,
    params: Ghost<PgParams>,
}

impl vstd::view::View for ConnectionParams {
    type V = PgParams;

    closed spec fn view(&self) -> PgParams {
        self.params@
    }
}

/// `tokio_postgres::Config::from_str`. The parse reads the text alone: it
/// gives the parameters `pg_url_params` names, or an error exactly where
/// that name is `None`. Of the parameters, only hosts, ports, user,
/// password and database name are modelled.
#[verifier::external_body]
fn parse_pg_url(url: &str) -> (r: Result<ConnectionParams, tokio_postgres::Error>)
    ensures
        match r {
            Ok(c) => pg_url_params(url@) == Some(c@),
            Err(_) => pg_url_params(url@) is None,
        },
{
    match PgConfig::from_str(url) {
        Ok(config) => Ok(ConnectionParams { config, params: Ghost(pg_url_params(url@)->Some_0) }),
        Err(e) => Err(e),
    }
}

/// `tokio_postgres::Config::new`: no host, port, user, password or
/// database name set.
#[verifier::external_body]
fn new_pg_config() -> (r: ConnectionParams)
    ensures
        r@ == no_params(),
{
    ConnectionParams { config: PgConfig::new(), params: Ghost(no_params()) }
}

impl ConnectionParams {
    /// The client library's parameters.
    pub closed spec fn config_value(&self) -> PgConfig {
        self.config
    }

    /// The client library's parameters, to connect with.
    pub fn into_config(self) -> (r: PgConfig)
        ensures
            r == self.config_value(),
    {
        self.config
    }

    /// `tokio_postgres::Config::host`: adds a host after the others; on
    /// Unix a text starting with `/` is added as a socket directory.
    #[verifier::external_body]
    fn add_host(&mut self, host: &str)
        ensures
            final(self)@ == with_host(old(self)@, host_of(host@)),
    {
        self.config.host(host);
    }

    /// `tokio_postgres::Config::host_path`: adds a socket directory after
    /// the hosts.
    #[verifier::external_body]
    fn add_host_path(&mut self, path: &str)
        ensures
            final(self)@ == with_host(old(self)@, PgHost::Unix(path@)),
    {
        self.config.host_path(path);
    }

    /// `tokio_postgres::Config::port`: adds a port after the others.
    #[verifier::external_body]
    fn add_port(&mut self, port: u16)
        ensures
            final(self)@ == with_port(old(self)@, port),
    {
        self.config.port(port);
    }

    /// `tokio_postgres::Config::user`: sets the user.
    #[verifier::external_body]
    fn set_user(&mut self, user: &str)
        ensures
            final(self)@ == with_user(old(self)@, user@),
    {
        self.config.user(user);
    }

    /// `tokio_postgres::Config::password`: sets the password to the UTF-8
    /// bytes of the text.
    #[verifier::external_body]
    fn set_password(&mut self, password: &str)
        ensures
            final(self)@ == with_password(old(self)@, vstd::utf8::encode_utf8(password@)),
    {
        self.config.password(password);
    }

    /// `tokio_postgres::Config::dbname`: sets the database name.
    #[verifier::external_body]
    fn set_dbname(&mut self, dbname: &str)
        ensures
            final(self)@ == with_dbname(old(self)@, dbname@),
    {
        self.config.dbname(dbname);
    }
}

/// Why no connection parameters could be made.
#[derive(Debug)]
pub enum PgConfigError {
    /// The URL was refused by the client library.
    Url(tokio_postgres::Error),
    /// No user is set and the system user name cannot stand in for one.
    User(String),
}

/// Whether the configured URL is one the client library refuses.
pub open spec fn url_refused(db: &DatabaseConfig) -> bool {
    db.url matches Some(u) && pg_url_params(u@) is None
}

/// The user to connect as: the configured one, or the system user name.
pub open spec fn resolved_user(db: &DatabaseConfig, system_user: SystemUser) -> Option<Seq<char>> {
    match db.user {
        Some(u) => Some(u@),
        None => match system_user {
            SystemUser::Name(n) => Some(n@),
            _ => None,
        },
    }
}

/// Why there is no user, when there is none: no user is set and the system
/// user name is unknown or not UTF-8.
pub open spec fn user_refusal(db: &DatabaseConfig, system_user: SystemUser) -> Option<Seq<char>> {
    match db.user {
        Some(_) => None,
        None => match system_user {
            SystemUser::Name(_) => None,
            SystemUser::Unknown => Some("No database user specified. Fallback to system user name failed."@),
            SystemUser::NotUtf8 => Some("System user name contains non-UTF-8 characters"@),
        },
    }
}

/// The connection parameters of `db` for user `user`: those of the URL
/// (none without one), then the host or the default socket directory, the
/// port if set, the user, the password if set, and the database name.
pub open spec fn expected_params(db: &DatabaseConfig, user: Seq<char>) -> PgParams {
    let base = match db.url {
        Some(u) => pg_url_params(u@)->Some_0,
        None => no_params(),
    };
    let hosted = match db.host {
        Some(h) => with_host(base, host_of(h@)),
        None => with_host(base, PgHost::Unix(default_socket_dir())),
    };
    let ported = match db.port {
        Some(p) => with_port(hosted, p),
        None => hosted,
    };
    let named = with_user(ported, user);
    let secured = match db.password {
        Some(p) => with_password(named, vstd::utf8::encode_utf8(p@)),
        None => named,
    };
    with_dbname(secured, db.dbname@)
}

impl DatabaseConfig {
    /// The client's connection parameters: those the URL gives (none
    /// without a URL), then the host or the default socket directory, the
    /// port, the user or the system user, the password and the database
    /// name, as `pg_settings` gives them. A refused URL is reported first,
    /// then a missing user.
    pub fn pg_config(&self, system_user: SystemUser) -> (r: Result<ConnectionParams, PgConfigError>)
        ensures
            (r matches Err(PgConfigError::Url(_))) <==> url_refused(self),
            !url_refused(self) && user_refusal(self, system_user) is Some ==> (r matches Err(
                PgConfigError::User(m),
            ) && m@ == user_refusal(self, system_user)->Some_0),
            !url_refused(self) && user_refusal(self, system_user) is None ==> (r matches Ok(c)
                && resolved_user(self, system_user) is Some && c@ == expected_params(
                self,
                resolved_user(self, system_user)->Some_0,
            )),
    {
        let settings = self.pg_settings(system_user);
        let mut cfg = match &settings.url {
            Some(url) => match parse_pg_url(url.as_str()) {
                Ok(c) => c,
                Err(e) => {
                    return Err(PgConfigError::Url(e));
                },
            },
            None => new_pg_config(),
        };
        match &settings.host {
            HostSetting::Host(h) => cfg.add_host(h.as_str()),
            HostSetting::Path(p) => cfg.add_host_path(p.as_str()),
        }
        if let Some(port) = settings.port {
            cfg.add_port(port);
        }
        match &settings.user {
            Ok(u) => cfg.set_user(u.as_str()),
            Err(m) => {
                return Err(PgConfigError::User(copy_string(m)));
            },
        }
        if let Some(p) = &settings.password {
            cfg.set_password(p.as_str());
        }
        cfg.set_dbname(settings.dbname.as_str());
        Ok(cfg)
    }
}

} // verus!
