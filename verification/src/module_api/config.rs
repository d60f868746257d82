//! Per-module configuration: a TOML value handed to the module.

use vstd::prelude::*;

verus! {

#[verifier::external_type_specification]
#[verifier::external_body]
pub struct ExTomlValue(toml::Value);

/// Whether a TOML value is a table with no keys.
pub uninterp spec fn spec_is_empty_table(v: toml::Value) -> bool;

/// `toml::Value::Table(toml::map::Map::new())`.
#[verifier::external_body]
fn empty_table() -> (v: toml::Value)
    ensures
        spec_is_empty_table(v),
{
    toml::Value::Table(toml::map::Map::new())
}

/// `toml::Value::clone`.
#[verifier::external_body]
fn clone_value(v: &toml::Value) -> (r: toml::Value)
    ensures
        r == *v,
{
    v.clone()
}

/// A module's configuration: an arbitrary TOML value, normally a table.
#[derive(Debug, PartialEq)]
pub struct ModuleConfig {
    value: toml::Value,
}

impl ModuleConfig {
    /// The raw value.
    pub closed spec fn value_view(&self) -> toml::Value {
        self.value
    }

    /// An empty table.
    pub fn empty() -> (c: Self)
        ensures
            spec_is_empty_table(c.value_view()),
    {
        ModuleConfig { value: empty_table() }
    }

    /// The configuration holding `value`.
    pub fn from_value(value: toml::Value) -> (c: Self)
        ensures
            c.value_view() == value,
    {
        ModuleConfig { value }
    }

    /// The raw value.
    pub fn raw(&self) -> (v: &toml::Value)
        ensures
            *v == self.value_view(),
    {
        &self.value
    }
}

impl Clone for ModuleConfig {
    fn clone(&self) -> (c: Self)
        ensures
            c.value_view() == self.value_view(),
    {
        ModuleConfig { value: clone_value(&self.value) }
    }
}

impl Default for ModuleConfig {
    fn default() -> (c: Self)
        ensures
            spec_is_empty_table(c.value_view()),
    {
        ModuleConfig::empty()
    }
}

} // verus!
