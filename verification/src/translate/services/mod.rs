//! The translation services: what each one is, what configuration it takes
//! and how that configuration is checked.

pub mod embedded_llm;
pub mod local_llm;
pub mod online_llm;
pub mod online_translate;

use crate::translate::service::{ConfigField, ConfigFieldType, ServiceDescriptor, TranslateMode};
use vstd::prelude::*;

verus! {

/// A field as (key, label, default, required, placeholder, description).
pub open spec fn field_view(f: ConfigField) -> (
    Seq<char>,
    Seq<char>,
    Seq<char>,
    bool,
    Option<Seq<char>>,
    Option<Seq<char>>,
) {
    (
        f.key@,
        f.label@,
        f.default@,
        f.required,
        match f.placeholder {
            Some(p) => Some(p@),
            None => None,
        },
        match f.description {
            Some(d) => Some(d@),
            None => None,
        },
    )
}

/// The fields of a schema as `field_view`s.
pub open spec fn schema_view(s: Seq<ConfigField>) -> Seq<
    (Seq<char>, Seq<char>, Seq<char>, bool, Option<Seq<char>>, Option<Seq<char>>),
> {
    s.map_values(|f: ConfigField| field_view(f))
}

/// A descriptor as (key, name, description, mode, requires network).
pub open spec fn descriptor_view(d: ServiceDescriptor) -> (Seq<char>, Seq<char>, Seq<char>, TranslateMode, bool) {
    (d.key@, d.name@, d.description@, d.mode, d.requires_network)
}

pub open spec fn opt_str(o: Option<&str>) -> Option<Seq<char>> {
    match o {
        Some(s) => Some(s@),
        None => None,
    }
}

/// A schema field.
pub fn field(
    key: &str,
    label: &str,
    field_type: ConfigFieldType,
    default: &str,
    required: bool,
    placeholder: Option<&str>,
    description: Option<&str>,
) -> (f: ConfigField)
    ensures
        field_view(f) == (key@, label@, default@, required, opt_str(placeholder), opt_str(description)),
        f.field_type == field_type,
{
    ConfigField {
        key: key.to_owned(),
        label: label.to_owned(),
        field_type,
        default: default.to_owned(),
        required,
        placeholder: match placeholder {
            Some(p) => Some(p.to_owned()),
            None => None,
        },
        description: match description {
            Some(d) => Some(d.to_owned()),
            None => None,
        },
    }
}

/// A descriptor.
pub fn descriptor(
    key: &str,
    name: &str,
    description: &str,
    mode: TranslateMode,
    requires_network: bool,
    config_schema: Vec<ConfigField>,
) -> (d: ServiceDescriptor)
    ensures
        descriptor_view(d) == (key@, name@, description@, mode, requires_network),
        d.config_schema == config_schema,
{
    ServiceDescriptor {
        key: key.to_owned(),
        name: name.to_owned(),
        description: description.to_owned(),
        mode,
        requires_network,
        config_schema,
    }
}

} // verus!
