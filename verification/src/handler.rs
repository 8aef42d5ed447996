use vstd::prelude::*;

use crate::config::{
    ascii_lowercase, ascii_text, override_holds, resolve_config, resolve_config_model, split_key, SvgoConfig,
};
use crate::entries::{keys_unique, map_get};
use crate::config_map::ConfigMap;
use crate::configuration::{diagnostics_model, ConfigurationDiagnostic, GlobalConfiguration};
use crate::text::concat;

verus! {

/// What the plugin tells the host about itself.
#[derive(Debug, Clone, PartialEq, Eq)]
pub struct PluginInfo {
    pub name: String,
    pub version: String,
    pub config_key: String,
    pub help_url: String,
    pub config_schema_url: String,
    pub update_url: Option<String>,
}

/// Which files the plugin formats: by extension (without the dot) and by
/// file name.
#[derive(Debug, Clone, PartialEq, Eq)]
pub struct FileMatchingInfo {
    pub file_extensions: Vec<String>,
    pub file_names: Vec<String>,
}

/// A resolved configuration as the host receives it: the configuration, its
/// diagnostics, and the files it applies to.
#[derive(Debug)]
pub struct PluginResolveConfigurationResult<T> {
    pub config: T,
    pub diagnostics: Vec<ConfigurationDiagnostic>,
    pub file_matching: FileMatchingInfo,
}

/// The URL of the configuration schema of the given version.
pub open spec fn schema_url(version: Seq<char>) -> Seq<char> {
    "https://plugins.dprint.dev/kjanat/dprint-plugin-svgo/"@ + version + "/schema.json"@
}

/// The plugin's description for the host, for plugin version `version`: it is
/// configured under `svgo`, documented at <https://svgo.dev>, and has no
/// update URL.
pub fn plugin_info(version: &str) -> (r: PluginInfo)
    ensures
        r.name@ == "dprint-plugin-svgo"@,
        r.version@ == version@,
        r.config_key@ == "svgo"@,
        r.help_url@ == "https://svgo.dev"@,
        r.config_schema_url@ == schema_url(version@),
        r.update_url is None,
{
    PluginInfo {
        name: "dprint-plugin-svgo".to_owned(),
        version: version.to_owned(),
        config_key: "svgo".to_owned(),
        help_url: "https://svgo.dev".to_owned(),
        config_schema_url: concat(
            concat("https://plugins.dprint.dev/kjanat/dprint-plugin-svgo/", version).as_str(),
            "/schema.json",
        ),
        update_url: None,
    }
}

/// Resolves the host's configuration for the plugin: the configuration and
/// its diagnostics as `resolve_config` gives them, applied to files with the
/// extensions `file_extensions` and to no file by name.
pub fn resolve_plugin_config(
    config: ConfigMap,
    global_config: GlobalConfiguration,
    file_extensions: Vec<String>,
) -> (r: PluginResolveConfigurationResult<SvgoConfig>)
    ensures
        (r.config.main@, r.config.extension_overrides@, diagnostics_model(r.diagnostics@))
            == resolve_config_model(config@, global_config),
        keys_unique(config@) ==> forall|k: Seq<char>, ext: Seq<char>, name: Seq<char>|
            #![trigger split_key(k), override_holds(r.config.extension_overrides@, ascii_lowercase(ext), name)]
            map_get(config@, k) is Some && split_key(k) == Some((ext, name)) && ascii_text(ext)
                ==> override_holds(r.config.extension_overrides@, ascii_lowercase(ext), name),
        r.file_matching.file_extensions@ == file_extensions@,
        r.file_matching.file_names@.len() == 0,
{
    let result = resolve_config(config, global_config);
    PluginResolveConfigurationResult {
        config: result.config,
        diagnostics: result.diagnostics,
        file_matching: FileMatchingInfo { file_extensions, file_names: Vec::new() },
    }
}

/// Whether a format request is answered with "no change" without formatting:
/// exactly when it asks for a range, which SVGO cannot format.
pub fn skips_range_format(range: &Option<(usize, usize)>) -> (r: bool)
    ensures
        r == range.is_some(),
{
    range.is_some()
}

} // verus!
