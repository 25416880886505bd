//! Loading configuration files: JSON, YAML and TOML contents decode to
//! a flat mapping of variables.
//!
//! The decoders themselves are outside collaborators; each is named by
//! an abstract function of the content, and the decoded values are read
//! through the JSON value model.

use vstd::prelude::*;

use crate::error::ShinkansenError;
use crate::json::JModel;
use crate::json::jmodel;
use crate::json::json_to_typed_value;
use crate::json::typed_of_jmodel;
use crate::namespace::Namespace;
use crate::value::VModel;

verus! {

broadcast use {
    vstd::seq::group_seq_axioms,
    vstd::std_specs::vec::group_vec_axioms,
};

/// The key/value entries that decoding a JSON config yields, in the
/// decoder's iteration order, or `None` when the content is rejected.
/// Depends on the content alone.
pub uninterp spec fn json_config_of(s: Seq<char>) -> Option<Seq<(Seq<char>, JModel)>>;

/// The entries that decoding a YAML config yields; see `json_config_of`.
pub uninterp spec fn yaml_config_of(s: Seq<char>) -> Option<Seq<(Seq<char>, JModel)>>;

/// The entries that decoding a TOML config yields; see `json_config_of`.
pub uninterp spec fn toml_config_of(s: Seq<char>) -> Option<Seq<(Seq<char>, JModel)>>;

/// The model of a vector of decoded entries.
pub open spec fn jentries_model(v: Seq<(String, serde_json::Value)>) -> Seq<(Seq<char>, JModel)> {
    Seq::new(v.len(), |i: int| (v[i].0@, jmodel(v[i].1)))
}

/// Relies on `serde_json::from_str::<BTreeMap<String, serde_json::Value>>`:
/// success and the decoded entries depend on the content alone, the
/// map's keys are distinct, and it iterates them in key order.
#[verifier::external_body]
fn json_decode_entries(content: &str) -> (r: Result<Vec<(String, serde_json::Value)>, String>)
    ensures
        r matches Ok(v) ==> Some(jentries_model(v@)) == json_config_of(content@) && (forall|
            a: int,
            b: int,
        |
            0 <= a < b < v@.len() ==> (#[trigger] v@[a].0)@ != (#[trigger] v@[b].0)@),
        r is Err ==> json_config_of(content@) is None,
{
    match serde_json::from_str::<std::collections::BTreeMap<String, serde_json::Value>>(content) {
        Ok(m) => Ok(m.into_iter().collect()),
        Err(e) => Err(e.to_string()),
    }
}

/// Relies on `serde_yaml::from_str::<BTreeMap<String, serde_json::Value>>`:
/// as `json_decode_entries`, for YAML content.
#[verifier::external_body]
fn yaml_decode_entries(content: &str) -> (r: Result<Vec<(String, serde_json::Value)>, String>)
    ensures
        r matches Ok(v) ==> Some(jentries_model(v@)) == yaml_config_of(content@) && (forall|
            a: int,
            b: int,
        |
            0 <= a < b < v@.len() ==> (#[trigger] v@[a].0)@ != (#[trigger] v@[b].0)@),
        r is Err ==> yaml_config_of(content@) is None,
{
    match serde_yaml::from_str::<std::collections::BTreeMap<String, serde_json::Value>>(content) {
        Ok(m) => Ok(m.into_iter().collect()),
        Err(e) => Err(e.to_string()),
    }
}

/// Relies on `toml::from_str::<BTreeMap<String, serde_json::Value>>`:
/// as `json_decode_entries`, for TOML content.
#[verifier::external_body]
fn toml_decode_entries(content: &str) -> (r: Result<Vec<(String, serde_json::Value)>, String>)
    ensures
        r matches Ok(v) ==> Some(jentries_model(v@)) == toml_config_of(content@) && (forall|
            a: int,
            b: int,
        |
            0 <= a < b < v@.len() ==> (#[trigger] v@[a].0)@ != (#[trigger] v@[b].0)@),
        r is Err ==> toml_config_of(content@) is None,
{
    match toml::from_str::<std::collections::BTreeMap<String, serde_json::Value>>(content) {
        Ok(m) => Ok(m.into_iter().collect()),
        Err(e) => Err(e.to_string()),
    }
}

/// Binding decoded entries over a map, in order; a later entry with the
/// same key wins.
pub open spec fn insert_entries(
    m: Map<Seq<char>, VModel>,
    es: Seq<(Seq<char>, JModel)>,
) -> Map<Seq<char>, VModel>
    decreases es.len(),
{
    if es.len() == 0 {
        m
    } else {
        insert_entries(m, es.drop_last()).insert(
            es.last().0,
            typed_of_jmodel(es.last().1),
        )
    }
}

/// Insert decoded entries into a namespace, converting each value.
pub(crate) fn insert_decoded(ns: &mut Namespace, entries: Vec<(String, serde_json::Value)>)
    requires
        old(ns).wf(),
    ensures
        final(ns).wf(),
        final(ns)@ == insert_entries(old(ns)@, jentries_model(entries@)),
{
    let ghost orig_map = ns@;
    let ghost all = jentries_model(entries@);
    let mut entries = entries;
    let ghost orig = entries@;
    let initial_len = entries.len();
    proof {
        assert(orig.len() == initial_len);
    }
    let mut k: usize = 0;
    while entries.len() > 0
        invariant
            ns.wf(),
            k <= orig.len(),
            orig.len() <= usize::MAX,
            k + entries@.len() == orig.len(),
            entries@ == orig.skip(k as int),
            all == jentries_model(orig),
            ns@ == insert_entries(orig_map, all.take(k as int)),
        decreases entries@.len(),
    {
        let (key, v) = entries.remove(0);
        proof {
            assert(orig.skip(k as int)[0] == orig[k as int]);
            assert(entries@ =~= orig.skip(k as int + 1));
            assert(all[k as int] == (orig[k as int].0@, jmodel(orig[k as int].1)));
        }
        let t = json_to_typed_value(v);
        let ghost kv = key@;
        ns.insert(key, t);
        k = k + 1;
        proof {
            assert(all.take(k as int).drop_last() =~= all.take(k as int - 1));
            assert(all.take(k as int).last() == all[k as int - 1]);
        }
    }
    proof {
        assert(all.take(orig.len() as int) =~= all);
    }
}

/// A decoded configuration file: its variables as a namespace.
pub struct ConfigFile {
    /// The decoded variables.
    pub variables: Namespace,
}

/// Turn a decode result into a loaded config file.
fn build_config(r: Result<Vec<(String, serde_json::Value)>, String>) -> (out: Result<
    ConfigFile,
    ShinkansenError,
>)
    ensures
        (match out {
            Ok(c) => r matches Ok(v) && c.variables.wf() && c.variables@ == insert_entries(
                Map::empty(),
                jentries_model(v@),
            ),
            Err(e) => r is Err && e is ConfigParseError,
        }),
{
    match r {
        Ok(entries) => {
            let mut ns = Namespace::new();
            insert_decoded(&mut ns, entries);
            Ok(ConfigFile { variables: ns })
        },
        Err(msg) => Err(ShinkansenError::ConfigParseError(msg)),
    }
}

/// Loads JSON configuration content.
pub struct JsonConfigLoader;

/// Loads YAML configuration content.
pub struct YamlConfigLoader;

/// Loads TOML configuration content.
pub struct TomlConfigLoader;

impl JsonConfigLoader {
    /// Decode JSON content into a configuration.
    pub fn load_config(&self, content: &str) -> (r: Result<ConfigFile, ShinkansenError>)
        ensures
            (match r {
                Ok(c) => json_config_of(content@) matches Some(es) && c.variables.wf()
                    && c.variables@ == insert_entries(Map::empty(), es),
                Err(e) => json_config_of(content@) is None && e is ConfigParseError,
            }),
    {
        build_config(json_decode_entries(content))
    }

    /// The file extensions this loader accepts.
    pub fn supported_extensions(&self) -> (r: Vec<&'static str>)
        ensures
            r@.len() == 1,
            r@[0]@ == "json"@,
    {
        let mut v: Vec<&'static str> = Vec::new();
        v.push("json");
        v
    }
}

impl YamlConfigLoader {
    /// Decode YAML content into a configuration.
    pub fn load_config(&self, content: &str) -> (r: Result<ConfigFile, ShinkansenError>)
        ensures
            (match r {
                Ok(c) => yaml_config_of(content@) matches Some(es) && c.variables.wf()
                    && c.variables@ == insert_entries(Map::empty(), es),
                Err(e) => yaml_config_of(content@) is None && e is ConfigParseError,
            }),
    {
        build_config(yaml_decode_entries(content))
    }

    /// The file extensions this loader accepts.
    pub fn supported_extensions(&self) -> (r: Vec<&'static str>)
        ensures
            r@.len() == 2,
            r@[0]@ == "yaml"@,
            r@[1]@ == "yml"@,
    {
        let mut v: Vec<&'static str> = Vec::new();
        v.push("yaml");
        v.push("yml");
        v
    }
}

impl TomlConfigLoader {
    /// Decode TOML content into a configuration.
    pub fn load_config(&self, content: &str) -> (r: Result<ConfigFile, ShinkansenError>)
        ensures
            (match r {
                Ok(c) => toml_config_of(content@) matches Some(es) && c.variables.wf()
                    && c.variables@ == insert_entries(Map::empty(), es),
                Err(e) => toml_config_of(content@) is None && e is ConfigParseError,
            }),
    {
        build_config(toml_decode_entries(content))
    }

    /// The file extensions this loader accepts.
    pub fn supported_extensions(&self) -> (r: Vec<&'static str>)
        ensures
            r@.len() == 1,
            r@[0]@ == "toml"@,
    {
        let mut v: Vec<&'static str> = Vec::new();
        v.push("toml");
        v
    }
}

/// The format a configuration file is in, selected by its extension.
pub enum ConfigFormat {
    Json,
    Yaml,
    Toml,
}

/// The decoded entries that a format's decoder yields for a content.
pub open spec fn format_config_of(f: ConfigFormat, content: Seq<char>) -> Option<
    Seq<(Seq<char>, JModel)>,
> {
    match f {
        ConfigFormat::Json => json_config_of(content),
        ConfigFormat::Yaml => yaml_config_of(content),
        ConfigFormat::Toml => toml_config_of(content),
    }
}

impl ConfigFormat {
    /// Decode content in this format into a configuration.
    pub fn load_config(&self, content: &str) -> (r: Result<ConfigFile, ShinkansenError>)
        ensures
            (match r {
                Ok(c) => format_config_of(*self, content@) matches Some(es) && c.variables.wf()
                    && c.variables@ == insert_entries(Map::empty(), es),
                Err(e) => format_config_of(*self, content@) is None && e is ConfigParseError,
            }),
    {
        match self {
            ConfigFormat::Json => JsonConfigLoader.load_config(content),
            ConfigFormat::Yaml => YamlConfigLoader.load_config(content),
            ConfigFormat::Toml => TomlConfigLoader.load_config(content),
        }
    }

    /// The file extensions this format's loader accepts.
    pub fn supported_extensions(&self) -> (r: Vec<&'static str>)
        ensures
            (match self {
                ConfigFormat::Json => r@.len() == 1 && r@[0]@ == "json"@,
                ConfigFormat::Yaml => r@.len() == 2 && r@[0]@ == "yaml"@ && r@[1]@ == "yml"@,
                ConfigFormat::Toml => r@.len() == 1 && r@[0]@ == "toml"@,
            }),
    {
        match self {
            ConfigFormat::Json => JsonConfigLoader.supported_extensions(),
            ConfigFormat::Yaml => YamlConfigLoader.supported_extensions(),
            ConfigFormat::Toml => TomlConfigLoader.supported_extensions(),
        }
    }
}

/// Decode content with the decoder a format selects.
pub(crate) fn decode_entries_for(f: &ConfigFormat, content: &str) -> (r: Result<
    Vec<(String, serde_json::Value)>,
    String,
>)
    ensures
        (match r {
            Ok(v) => Some(jentries_model(v@)) == format_config_of(*f, content@),
            Err(_) => format_config_of(*f, content@) is None,
        }),
{
    match f {
        ConfigFormat::Json => json_decode_entries(content),
        ConfigFormat::Yaml => yaml_decode_entries(content),
        ConfigFormat::Toml => toml_decode_entries(content),
    }
}

/// The format an extension selects, if any.
pub open spec fn format_of_ext(ext: Seq<char>) -> Option<ConfigFormat> {
    if ext == "json"@ {
        Some(ConfigFormat::Json)
    } else if ext == "yaml"@ || ext == "yml"@ {
        Some(ConfigFormat::Yaml)
    } else if ext == "toml"@ {
        Some(ConfigFormat::Toml)
    } else {
        None
    }
}

/// Creates the loader that matches a config file extension.
pub struct ConfigLoaderFactory;

impl ConfigLoaderFactory {
    /// The loader for an extension: `json`, `yaml`/`yml` or `toml`; any
    /// other extension has none.
    pub fn create_loader(ext: &str) -> (r: Option<ConfigFormat>)
        ensures
            r == format_of_ext(ext@),
    {
        if crate::text::str_eq(ext, "json") {
            Some(ConfigFormat::Json)
        } else if crate::text::str_eq(ext, "yaml") || crate::text::str_eq(ext, "yml") {
            Some(ConfigFormat::Yaml)
        } else if crate::text::str_eq(ext, "toml") {
            Some(ConfigFormat::Toml)
        } else {
            None
        }
    }
}

} // verus!
