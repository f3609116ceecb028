//! Translation plugins: categories, metadata and per-plugin configuration.

use crate::text::str_eq;
use crate::translate::fields::{value_or_empty, FieldMap};
use crate::translate::service::{schema_defaults, ConfigField, HealthStatus};
use vstd::prelude::*;

verus! {

/// Where a plugin's translations come from.
#[derive(Debug, Clone, Copy, PartialEq, Eq, Structural)]
pub enum PluginCategory {
    RemoteApi,
    RemoteLlm,
    LocalLlm,
}

/// What a plugin is and what configuration it takes.
#[derive(Debug, Clone)]
pub struct PluginMetadata {
    pub namespace: String,
    pub display_name: String,
    pub description: String,
    pub version: String,
    pub category: PluginCategory,
    pub requires_network: bool,
    pub config_schema: Vec<ConfigField>,
}

/// A plugin as listed to the user.
#[derive(Debug, Clone)]
pub struct PluginInfo {
    pub metadata: PluginMetadata,
    pub is_available: bool,
    pub health_status: Option<HealthStatus>,
}

/// The configuration values of one plugin.
#[derive(Debug, Clone)]
pub struct PluginConfig {
    pub namespace: String,
    pub fields: FieldMap,
}

impl PluginCategory {
    pub fn display_name(&self) -> (s: &'static str)
        ensures
            s@ == match *self {
                PluginCategory::RemoteApi => "Remote Translation API"@,
                PluginCategory::RemoteLlm => "Remote LLM"@,
                PluginCategory::LocalLlm => "Local LLM"@,
            },
    {
        match self {
            PluginCategory::RemoteApi => "Remote Translation API",
            PluginCategory::RemoteLlm => "Remote LLM",
            PluginCategory::LocalLlm => "Local LLM",
        }
    }

    pub fn key(&self) -> (s: &'static str)
        ensures
            s@ == match *self {
                PluginCategory::RemoteApi => "remote_api"@,
                PluginCategory::RemoteLlm => "remote_llm"@,
                PluginCategory::LocalLlm => "local_llm"@,
            },
    {
        match self {
            PluginCategory::RemoteApi => "remote_api",
            PluginCategory::RemoteLlm => "remote_llm",
            PluginCategory::LocalLlm => "local_llm",
        }
    }
}

impl PluginConfig {
    /// A configuration of the plugin with no values.
    pub fn new(namespace: &str) -> (c: Self)
        ensures
            c.namespace@ == namespace@,
            c.fields@ == Map::<Seq<char>, Seq<char>>::empty(),
            c.fields.wf(),
    {
        PluginConfig { namespace: namespace.to_owned(), fields: FieldMap::new() }
    }

    /// The value of `key`, or `""`.
    pub fn get(&self, key: &str) -> (v: &str)
        ensures
            v@ == value_or_empty(self.fields@, key@),
    {
        self.fields.get(key)
    }

    /// Sets `key` to `value`.
    pub fn set(&mut self, key: &str, value: &str)
        ensures
            final(self).fields@ == old(self).fields@.insert(key@, value@),
            old(self).fields.wf() ==> final(self).fields.wf(),
            final(self).namespace == old(self).namespace,
    {
        self.fields.set(key, value);
    }

    /// A configuration holding every field's default.
    pub fn from_schema(namespace: &str, schema: &[ConfigField]) -> (c: Self)
        ensures
            c.namespace@ == namespace@,
            c.fields@ == schema_defaults(schema@),
            c.fields.wf(),
    {
        let mut fields = FieldMap::new();
        let mut i: usize = 0;
        while i < schema.len()
            invariant
                i <= schema@.len(),
                fields@ == schema_defaults(schema@.take(i as int)),
                fields.wf(),
            decreases schema.len() - i,
        {
            fields.set(schema[i].key.as_str(), schema[i].default.as_str());
            proof {
                assert(schema@.take(i + 1).drop_last() =~= schema@.take(i as int));
                assert(schema@.take(i + 1).last() == schema@[i as int]);
            }
            i = i + 1;
        }
        assert(schema@.take(schema@.len() as int) =~= schema@);
        PluginConfig { namespace: namespace.to_owned(), fields }
    }
}

/// Metadata as (namespace, display name, description, version, category,
/// requires network).
pub open spec fn metadata_view(m: PluginMetadata) -> (Seq<char>, Seq<char>, Seq<char>, Seq<char>, PluginCategory, bool) {
    (m.namespace@, m.display_name@, m.description@, m.version@, m.category, m.requires_network)
}

/// Plugin metadata.
pub fn metadata(
    namespace: &str,
    display_name: &str,
    description: &str,
    version: &str,
    category: PluginCategory,
    requires_network: bool,
    config_schema: Vec<ConfigField>,
) -> (m: PluginMetadata)
    ensures
        metadata_view(m) == (namespace@, display_name@, description@, version@, category, requires_network),
        m.config_schema == config_schema,
{
    PluginMetadata {
        namespace: namespace.to_owned(),
        display_name: display_name.to_owned(),
        description: description.to_owned(),
        version: version.to_owned(),
        category,
        requires_network,
        config_schema,
    }
}

} // verus!
