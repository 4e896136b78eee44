//! Project configuration (`conduit.yaml`).

use vstd::prelude::*;
use std::collections::HashMap;
use crate::text::owned;

verus! {

/// A JSON value, as `serde_json` holds it; carried through unread.
#[verifier::external_type_specification]
#[verifier::external_body]
pub struct ExJsonValue(serde_json::Value);

/// The whole project configuration.
#[derive(Debug, Clone)]
pub struct ConduitConfig {
    /// Project name.
    pub name: String,
    /// Where the DAG definitions are.
    pub dags_path: String,
    /// Named connections.
    pub connections: HashMap<String, ConnectionConfig>,
    /// Named resource pools.
    pub pools: HashMap<String, PoolConfig>,
    /// Global defaults.
    pub defaults: DefaultsConfig,
    /// Secrets backends.
    pub secrets: SecretsConfig,
}

/// Where credential references in connections are resolved.
#[derive(Debug, Clone)]
pub struct SecretsConfig {
    pub vault: Option<VaultSecretsConfig>,
    pub aws: Option<AwsSecretsConfig>,
    pub gcp: Option<GcpSecretsConfig>,
    /// Whether resolved secrets are cached in memory.
    pub cache_enabled: bool,
}

impl Default for SecretsConfig {
    /// No backend and no caching (a file that omits the field gets caching,
    /// see `default_cache_enabled`).
    fn default() -> (c: Self)
        ensures
            c.vault is None,
            c.aws is None,
            c.gcp is None,
            !c.cache_enabled,
    {
        SecretsConfig { vault: None, aws: None, gcp: None, cache_enabled: false }
    }
}

/// Whether secrets are cached when the file does not say.
pub fn default_cache_enabled() -> (b: bool)
    ensures
        b,
{
    true
}

/// HashiCorp Vault settings.
#[derive(Debug, Clone)]
pub struct VaultSecretsConfig {
    pub address: String,
    /// `token`, `approle`, `kubernetes` or `aws-iam`.
    pub auth_method: String,
    pub token: Option<String>,
    pub role_id: Option<String>,
    pub secret_id: Option<String>,
    pub k8s_role: Option<String>,
    /// Secrets engine mount path.
    pub mount: String,
    pub namespace: Option<String>,
    pub ca_cert: Option<String>,
    pub skip_tls_verify: bool,
    pub timeout_secs: u64,
}

/// The Vault auth method when the file does not say.
pub fn default_vault_auth() -> (s: String)
    ensures
        s@ == "token"@,
{
    owned("token")
}

/// The Vault mount path when the file does not say.
pub fn default_vault_mount() -> (s: String)
    ensures
        s@ == "secret"@,
{
    owned("secret")
}

/// A secrets backend's timeout when the file does not say.
pub fn default_timeout_secs() -> (t: u64)
    ensures
        t == 5,
{
    5
}

/// AWS settings (SSM Parameter Store and Secrets Manager).
#[derive(Debug, Clone)]
pub struct AwsSecretsConfig {
    pub region: Option<String>,
    pub profile: Option<String>,
    pub endpoint_url: Option<String>,
    pub timeout_secs: u64,
}

/// GCP Secret Manager settings.
#[derive(Debug, Clone)]
pub struct GcpSecretsConfig {
    pub project: Option<String>,
    pub credentials_file: Option<String>,
    pub timeout_secs: u64,
}

/// The DAG directory when the file does not say.
pub fn default_dags_path() -> (s: String)
    ensures
        s@ == "dags"@,
{
    owned("dags")
}

/// A named connection to an external system.
#[derive(Debug, Clone)]
pub struct ConnectionConfig {
    pub conn_type: String,
    pub host: Option<String>,
    pub port: Option<u16>,
    pub database: Option<String>,
    pub credentials: Option<String>,
    /// Further connection-specific settings.
    pub extra: HashMap<String, serde_json::Value>,
}

/// A named resource pool.
#[derive(Debug, Clone)]
pub struct PoolConfig {
    pub slots: u32,
    pub description: Option<String>,
}

/// Global defaults for tasks.
#[derive(Debug, Clone)]
pub struct DefaultsConfig {
    pub retries: u32,
    pub retry_delay: Option<String>,
    pub timeout: Option<String>,
    pub pool: Option<String>,
    /// Most tasks active at once across the project.
    pub max_active_tasks: u32,
}

impl Default for DefaultsConfig {
    /// Everything zero or unset (a file that omits `max_active_tasks` gets
    /// `default_max_active_tasks`).
    fn default() -> (d: Self)
        ensures
            d.retries == 0,
            d.retry_delay is None,
            d.timeout is None,
            d.pool is None,
            d.max_active_tasks == 0,
    {
        DefaultsConfig { retries: 0, retry_delay: None, timeout: None, pool: None, max_active_tasks: 0 }
    }
}

/// The project-wide task limit when the file does not say.
pub fn default_max_active_tasks() -> (n: u32)
    ensures
        n == 256,
{
    256
}

impl ConduitConfig {
    /// The configuration `conduit init` writes for a new project.
    pub fn default_for_project(name: &str) -> (c: Self)
        ensures
            c.name@ == name@,
            c.dags_path@ == "dags"@,
            c.connections@ == Map::<String, ConnectionConfig>::empty(),
            c.pools@ == Map::<String, PoolConfig>::empty(),
            c.defaults.retries == 0,
            c.defaults.retry_delay is None,
            c.defaults.timeout is None,
            c.defaults.pool is None,
            c.defaults.max_active_tasks == 0,
            c.secrets.vault is None,
            c.secrets.aws is None,
            c.secrets.gcp is None,
            !c.secrets.cache_enabled,
    {
        ConduitConfig {
            name: owned(name),
            dags_path: owned("dags"),
            connections: HashMap::new(),
            pools: HashMap::new(),
            defaults: DefaultsConfig::default(),
            secrets: SecretsConfig::default(),
        }
    }
}

} // verus!
