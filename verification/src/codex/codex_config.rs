//! The configuration of a codex and the text of its configuration file.
use vstd::prelude::*;

use crate::text::{chars_of, decimal, string_from_chars, usize_to_string};

verus! {

/// The key of the codex id.
pub const CONFIG_ID: &'static str = "id";
/// The key of the codex name.
pub const CONFIG_NAME: &'static str = "name";
/// The key of the codex version.
pub const CONFIG_CODEX_VERSION: &'static str = "codex";
/// The key of the storage version.
pub const CONFIG_STORAGE_VERSION: &'static str = "storage";
/// The key of the database schema version.
pub const CONFIG_SQLITESTORE_VERSION: &'static str = "sqlitestore";
/// The key of the creation time.
pub const CONFIG_CREATED_AT: &'static str = "created_at";
/// The key of the read block size.
pub const CONFIG_READ_CHUNK_SIZE: &'static str = "read_chunk_size";
/// The key of the write block size.
pub const CONFIG_WRITE_CHUNK_SIZE: &'static str = "write_chunk_size";
/// The embedding model used when none is configured.
pub const DEFAULT_ML_MODEL: &'static str = "all-MiniLM-L6-v2";
/// The key of the embedding model.
pub const CONFIG_ML_MODEL: &'static str = "ml-model";
/// The key of the embedding dimensions.
pub const CONFIG_ML_DIMS: &'static str = "dims";
/// The embedding dimensions used when none are configured.
pub const DEFAULT_ML_DIMS: u32 = 384;

/// The values written into a new configuration file.
pub struct CodexConfigWrite {
    pub identity_id: String,
    pub identity_name: String,
    pub version_codex: String,
    pub version_storage: String,
    pub version_sqlitestore: String,
    pub version_created_at: String,
    pub settings_read_chunk_size: usize,
    pub settings_write_chunk_size: usize,
}

/// The text of a configuration file for `c`. The `read_chunk_size` line carries the
/// write block size and the `write_chunk_size` line the read block size.
pub open spec fn config_template(c: CodexConfigWrite) -> Seq<char> {
    "[identity]\nid=\""@ + c.identity_id@ + "\"\nname=\""@ + c.identity_name@ + "\"\n[version]\ncodex=\""@
        + c.version_codex@ + "\"\nstorage=\""@ + c.version_storage@ + "\"\nsqlitestore=\""@
        + c.version_sqlitestore@ + "\"\ncreated_at=\""@ + c.version_created_at@
        + "\"\n[settings]\nread_chunk_size="@ + decimal(c.settings_write_chunk_size as nat)
        + "\nwrite_chunk_size="@ + decimal(c.settings_read_chunk_size as nat) + "\n"@
}

/// The text of a configuration file for `config`.
pub fn get_codex_config_template(config: &CodexConfigWrite) -> (s: String)
    ensures
        s@ == config_template(*config),
{
    let mut s = string_from_chars(&chars_of("[identity]\nid=\""));
    s.push_str(config.identity_id.as_str());
    s.push_str("\"\nname=\"");
    s.push_str(config.identity_name.as_str());
    s.push_str("\"\n[version]\ncodex=\"");
    s.push_str(config.version_codex.as_str());
    s.push_str("\"\nstorage=\"");
    s.push_str(config.version_storage.as_str());
    s.push_str("\"\nsqlitestore=\"");
    s.push_str(config.version_sqlitestore.as_str());
    s.push_str("\"\ncreated_at=\"");
    s.push_str(config.version_created_at.as_str());
    s.push_str("\"\n[settings]\nread_chunk_size=");
    s.push_str(usize_to_string(config.settings_write_chunk_size).as_str());
    s.push_str("\nwrite_chunk_size=");
    s.push_str(usize_to_string(config.settings_read_chunk_size).as_str());
    s.push_str("\n");
    s
}

/// Who a codex is.
pub struct Identity {
    pub id: String,
    pub name: String,
}

/// The versions a codex was made with, and when.
pub struct Version {
    pub codex: String,
    pub storage: String,
    pub sqlitestore: String,
    pub created_at: String,
}

/// How a codex reads, writes and embeds files.
pub struct Settings {
    pub read_chunk_size: usize,
    pub write_chunk_size: usize,
    pub embedding_batch_size: usize,
    pub embedding_max_token: usize,
    pub embedding_overlap: usize,
}

/// The embedding model of a codex.
pub struct MLSettings {
    pub model_name: String,
    pub dims: u32,
}

/// The configuration of a codex.
pub struct CodexConfig {
    pub identity: Identity,
    pub version: Version,
    pub settings: Settings,
    pub ml: MLSettings,
}

impl Default for Settings {
    fn default() -> (s: Self)
        ensures
            s.read_chunk_size == 512,
            s.write_chunk_size == 512,
            s.embedding_batch_size == 4,
            s.embedding_max_token == 512,
            s.embedding_overlap == 2,
    {
        Settings {
            read_chunk_size: 512,
            write_chunk_size: 512,
            embedding_batch_size: 4,
            embedding_max_token: 512,
            embedding_overlap: 2,
        }
    }
}

impl Default for MLSettings {
    fn default() -> (s: Self)
        ensures
            s.model_name@ == DEFAULT_ML_MODEL@,
            s.dims == DEFAULT_ML_DIMS,
    {
        MLSettings { model_name: string_from_chars(&chars_of(DEFAULT_ML_MODEL)), dims: DEFAULT_ML_DIMS }
    }
}

/// A configuration value.
pub enum ConfigValue {
    Str(String),
    UINT(usize),
    INT(isize),
    BOOL(bool),
}

/// The decimal notation of `n`, with a minus sign when it is negative.
pub open spec fn signed_decimal(n: int) -> Seq<char> {
    if n < 0 {
        seq!['-'] + decimal((-n) as nat)
    } else {
        decimal(n as nat)
    }
}

/// How a configuration value is displayed.
pub open spec fn value_text(v: ConfigValue) -> Seq<char> {
    match v {
        ConfigValue::Str(s) => s@,
        ConfigValue::UINT(n) => decimal(n as nat),
        ConfigValue::INT(n) => signed_decimal(n as int),
        ConfigValue::BOOL(b) => if b { "true"@ } else { "false"@ },
    }
}

/// The decimal notation of a signed integer.
pub fn isize_to_string(n: isize) -> (s: String)
    ensures
        s@ == signed_decimal(n as int),
{
    if n < 0 {
        let m: usize = ((0 - (n + 1)) as usize) + 1;
        assert(m == -n);
        let mut s = string_from_chars(&chars_of("-"));
        proof {
            reveal_strlit("-");
        }
        s.push_str(usize_to_string(m).as_str());
        assert(s@ =~= seq!['-'] + decimal(m as nat));
        s
    } else {
        usize_to_string(n as usize)
    }
}

impl ConfigValue {
    /// The value as it is displayed.
    pub fn to_display(&self) -> (s: String)
        ensures
            s@ == value_text(*self),
    {
        match self {
            ConfigValue::Str(v) => v.clone(),
            ConfigValue::INT(v) => isize_to_string(*v),
            ConfigValue::UINT(v) => usize_to_string(*v),
            ConfigValue::BOOL(v) => if *v {
                string_from_chars(&chars_of("true"))
            } else {
                string_from_chars(&chars_of("false"))
            },
        }
    }
}

} // verus!
