use aetherium::codex::codex_config::{
    get_codex_config_template, isize_to_string, CodexConfig, CodexConfigWrite, ConfigValue, Identity, MLSettings,
    Settings, Version,
};
use aetherium::codex::config_access::{change_config, get_config, parse_unsigned, validate_codex_config};
use aetherium::codex::utils::version_error;
use aetherium::codex::versions::{layout_for, CodexV1, CodexVersion};
use aetherium::ml_server::config::{
    ml_address, ClusterModel, DimensionsReductionModel, HdbscanConfig, KmeansConfig, LdaConfig, LsaConfig,
};
use aetherium::storage::error::StorageError;
use aetherium::storage::sqlite_version::SqliteStoreVersion;
use aetherium::storage::versions::StorageVersion;
use aetherium::ConfigError;

fn config() -> CodexConfig {
    CodexConfig {
        identity: Identity { id: "67e55044-10b1-426f-9247-bb680e5fe0c8".into(), name: "notes".into() },
        version: Version {
            codex: "v1.0.0".into(),
            storage: "v1".into(),
            sqlitestore: "v1".into(),
            created_at: "today".into(),
        },
        settings: Settings::default(),
        ml: MLSettings::default(),
    }
}

fn shown(v: ConfigValue) -> String {
    v.to_display()
}

#[test]
fn template_swaps_the_block_sizes() {
    let w = CodexConfigWrite {
        identity_id: "id1".into(),
        identity_name: "name1".into(),
        version_codex: "v1.0.0".into(),
        version_storage: "v1".into(),
        version_sqlitestore: "v1".into(),
        version_created_at: "now".into(),
        settings_read_chunk_size: 1,
        settings_write_chunk_size: 2,
    };
    assert_eq!(
        get_codex_config_template(&w),
        "[identity]\nid=\"id1\"\nname=\"name1\"\n[version]\ncodex=\"v1.0.0\"\nstorage=\"v1\"\nsqlitestore=\"v1\"\ncreated_at=\"now\"\n[settings]\nread_chunk_size=2\nwrite_chunk_size=1\n"
    );
}

#[test]
fn config_values_display() {
    assert_eq!(shown(ConfigValue::Str("s".into())), "s");
    assert_eq!(shown(ConfigValue::UINT(42)), "42");
    assert_eq!(shown(ConfigValue::INT(-7)), "-7");
    assert_eq!(shown(ConfigValue::INT(isize::MIN)), isize::MIN.to_string());
    assert_eq!(shown(ConfigValue::BOOL(true)), "true");
    assert_eq!(isize_to_string(0), "0");
}

#[test]
fn defaults_of_settings() {
    let s = Settings::default();
    assert_eq!((s.read_chunk_size, s.write_chunk_size, s.embedding_batch_size), (512, 512, 4));
    assert_eq!((s.embedding_max_token, s.embedding_overlap), (512, 2));
    let m = MLSettings::default();
    assert_eq!((m.model_name.as_str(), m.dims), ("all-MiniLM-L6-v2", 384));
}

#[test]
fn reading_settings() {
    let c = config();
    assert_eq!(shown(get_config(&c, "name").ok().unwrap()), "notes");
    assert_eq!(shown(get_config(&c, "created_at").ok().unwrap()), "today");
    assert_eq!(shown(get_config(&c, "read_chunk_size").ok().unwrap()), "512");
    assert_eq!(shown(get_config(&c, "dims").ok().unwrap()), "384");
    assert_eq!(get_config(&c, "nope").err(), Some(StorageError::NotFound("key not found".into())));
}

#[test]
fn changing_settings_reads_back() {
    let mut c = config();
    change_config(&mut c, "write_chunk_size", "+1024").unwrap();
    assert_eq!(shown(get_config(&c, "write_chunk_size").ok().unwrap()), "1024");
    assert_eq!(shown(get_config(&c, "read_chunk_size").ok().unwrap()), "512");
    change_config(&mut c, "dims", "768").unwrap();
    assert_eq!(c.ml.dims, 768);
    assert_eq!(
        change_config(&mut c, "dims", "4294967296").err(),
        Some(StorageError::AssertionFail("dims must be a valid number".into()))
    );
    assert_eq!(
        change_config(&mut c, "read_chunk_size", "-3").err(),
        Some(StorageError::AssertionFail("read_chunk_size must be a valid number".into()))
    );
    assert_eq!(
        change_config(&mut c, "name", "x").err(),
        Some(StorageError::AssertionFail("key not found or is not editable".into()))
    );
    assert_eq!(c.ml.dims, 768);
    assert_eq!(c.settings.read_chunk_size, 512);
}

#[test]
fn number_parsing_follows_str_parse() {
    for s in ["0", "42", "+42", "", "+", "-1", "4a", "18446744073709551615", "18446744073709551616", " 1"] {
        assert_eq!(parse_unsigned(s, usize::MAX), s.parse::<usize>().ok(), "{s:?}");
        assert_eq!(parse_unsigned(s, u32::MAX as usize), s.parse::<u32>().ok().map(|x| x as usize), "{s:?}");
    }
}

#[test]
fn codex_validity() {
    let mut c = config();
    assert!(validate_codex_config(&c));
    c.version.storage = "v9".into();
    assert!(!validate_codex_config(&c));
    let mut c = config();
    c.identity.id = "not-a-uuid".into();
    assert!(!validate_codex_config(&c));
    let mut c = config();
    c.version.codex = "v3.0.0".into();
    assert!(!validate_codex_config(&c));
}

#[test]
fn codex_versions() {
    assert_eq!(CodexVersion::parse("v1.0.0"), Some(CodexVersion::V1));
    assert_eq!(CodexVersion::parse("v2.0.0"), Some(CodexVersion::V2));
    assert_eq!(CodexVersion::parse("v1"), None);
    assert_eq!(CodexVersion::V2.as_str(), "v2.0.0");
    assert_eq!(version_error("v1.0.0"), Ok(CodexVersion::V1));
    assert_eq!(version_error("v7"), Err("version not found \"v7\"".to_string()));
    assert_eq!(version_error("a\"b"), Err("version not found \"a\\\"b\"".to_string()));
    assert_eq!(layout_for(CodexVersion::V2).version(), CodexVersion::V1);
    assert_eq!(CodexV1.supported_storage(), vec![StorageVersion::V1]);
}

#[test]
fn first_codex_content_text() {
    let s = CodexV1.codex_content("book", "id9", StorageVersion::V1, SqliteStoreVersion::V1, "t0");
    assert_eq!(
        s,
        "[identity]\nid=\"id9\"\nname=\"book\"\n[version]\ncodex=\"v1.0.0\"\nstorage=\"v1\"\nstorage_sqlite=\"v1\"\ncreated_at=\"t0\""
    );
    let live = CodexV1.first_codex_content("book", "id9", StorageVersion::V1, SqliteStoreVersion::V1);
    assert!(live.starts_with("[identity]\nid=\"id9\"\nname=\"book\"\n"));
    assert!(live.ends_with('"'));
}

#[test]
fn ml_settings() {
    assert_eq!(ClusterModel::default().parse(), "hdbscan");
    assert_eq!(ClusterModel::KMEANS.parse(), "kmeans");
    assert_eq!(DimensionsReductionModel::default().parse(), "umap");
    assert_eq!(DimensionsReductionModel::NONE.parse(), "none");
    assert_eq!(LsaConfig::default().n_components, 15);
    let l = LdaConfig::default();
    assert_eq!((l.n_components, l.max_iter, l.learning_method.as_str()), (15, 100, "online"));
    let h = HdbscanConfig::default();
    assert_eq!((h.min_samples, h.metric.as_str()), (Some(10), "euclidean"));
    let k = KmeansConfig::default();
    assert_eq!((k.k_clusters, k.metric.as_str(), k.init_position.as_str()), (3, "cosine", "kmeans++"));
    assert_eq!(ml_address("localhost", 50032), "http://localhost:50032");
    assert_eq!(ConfigError::NoDirsFound.message(), "config dir not found");
    assert_eq!(ConfigError::Corrupt("x".into()).message(), "codex is corrupted: x");
}
