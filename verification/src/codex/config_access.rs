//! Reading, changing and checking the values of a codex configuration.
use vstd::prelude::*;

use crate::codex::codex_config::{CodexConfig, ConfigValue, MLSettings, Settings};
use crate::codex::versions::{codex_version_named, layout_for, CodexVersion};
use crate::identifiers::{uuid_parses, uuid_text};
use crate::storage::error::StorageError;
use crate::storage::versions::{storage_version_named, StorageVersion};
use crate::text::{chars_eq, chars_of, string_from_chars};

verus! {

/// An ASCII decimal digit.
pub open spec fn is_digit(c: char) -> bool {
    '0' <= c && c <= '9'
}

/// The value of a decimal digit.
pub open spec fn digit_value(c: char) -> nat {
    ((c as u32) - ('0' as u32)) as nat
}

/// The value of a sequence of decimal digits.
pub open spec fn digits_value(s: Seq<char>) -> nat
    decreases s.len(),
{
    if s.len() == 0 {
        0
    } else {
        digits_value(s.drop_last()) * 10 + digit_value(s.last())
    }
}

/// The digits of an unsigned number: the text without one leading `+`.
pub open spec fn unsigned_digits(s: Seq<char>) -> Seq<char> {
    if s.len() > 0 && s[0] == '+' {
        s.drop_first()
    } else {
        s
    }
}

/// What `str::parse` gives for an unsigned integer type whose largest value is
/// `max`: the value of one or more decimal digits after an optional `+`, when it is
/// at most `max`.
pub open spec fn parsed_unsigned(s: Seq<char>, max: nat) -> Option<nat> {
    let d = unsigned_digits(s);
    if d.len() > 0 && (forall|i: int| 0 <= i < d.len() ==> is_digit(#[trigger] d[i])) && digits_value(d) <= max {
        Some(digits_value(d))
    } else {
        None
    }
}

proof fn lemma_digits_prefix(s: Seq<char>, j: int)
    requires
        0 <= j <= s.len(),
    ensures
        digits_value(s.take(j)) <= digits_value(s),
    decreases s.len() - j,
{
    if j < s.len() {
        lemma_digits_prefix(s.drop_last(), j);
        assert(s.drop_last().take(j) =~= s.take(j));
    } else {
        assert(s.take(j) =~= s);
    }
}

/// The unsigned integer written in `s`, if it is one no larger than `max`.
pub fn parse_unsigned(s: &str, max: usize) -> (r: Option<usize>)
    ensures
        match parsed_unsigned(s@, max as nat) {
            Some(n) => r == Some(n as usize),
            None => r is None,
        },
{
    let cs = chars_of(s);
    let start: usize = if cs.len() > 0 && cs[0] == '+' {
        1
    } else {
        0
    };
    let ghost d = unsigned_digits(s@);
    assert(d =~= cs@.skip(start as int));
    if start >= cs.len() {
        assert(d.len() == 0);
        assert(parsed_unsigned(s@, max as nat) is None);
        return None;
    }
    let mut acc: usize = 0;
    let mut i = start;
    while i < cs.len()
        invariant
            start <= i <= cs.len(),
            cs@ == s@,
            d == cs@.skip(start as int),
            d == unsigned_digits(s@),
            acc == digits_value(d.take(i - start)),
            acc <= max,
            forall|k: int| 0 <= k < i - start ==> is_digit(#[trigger] d[k]),
        decreases cs.len() - i,
    {
        let c = cs[i];
        let ghost p = d.take(i - start + 1);
        assert(p.drop_last() =~= d.take(i - start));
        assert(p.last() == c);
        if c < '0' || c > '9' {
            assert(!is_digit(d[i - start]));
            assert(!(forall|k: int| 0 <= k < d.len() ==> is_digit(#[trigger] d[k])));
            assert(parsed_unsigned(s@, max as nat) is None);
            return None;
        }
        let v = (c as u32 - '0' as u32) as usize;
        let next = match acc.checked_mul(10) {
            Some(m) => m.checked_add(v),
            None => None,
        };
        match next {
            Some(n) if n <= max => {
                acc = n;
            },
            _ => {
                proof {
                    assert(digits_value(p) == acc * 10 + v);
                    if forall|k: int| 0 <= k < d.len() ==> is_digit(#[trigger] d[k]) {
                        lemma_digits_prefix(d, i - start + 1);
                        assert(digits_value(d) > max);
                    }
                    assert(parsed_unsigned(s@, max as nat) is None);
                }
                return None;
            },
        }
        i = i + 1;
    }
    assert(d.take(cs.len() - start) =~= d);
    Some(acc)
}

/// The value stored under `key` in `c`, if `key` names one.
pub open spec fn config_entry(c: CodexConfig, key: Seq<char>) -> Option<ConfigValue> {
    if key == "id"@ {
        Some(ConfigValue::Str(c.identity.id))
    } else if key == "name"@ {
        Some(ConfigValue::Str(c.identity.name))
    } else if key == "codex"@ {
        Some(ConfigValue::Str(c.version.codex))
    } else if key == "storage"@ {
        Some(ConfigValue::Str(c.version.storage))
    } else if key == "sqlitestore"@ {
        Some(ConfigValue::Str(c.version.sqlitestore))
    } else if key == "created_at"@ {
        Some(ConfigValue::Str(c.version.created_at))
    } else if key == "read_chunk_size"@ {
        Some(ConfigValue::UINT(c.settings.read_chunk_size))
    } else if key == "write_chunk_size"@ {
        Some(ConfigValue::UINT(c.settings.write_chunk_size))
    } else if key == "dims"@ {
        Some(ConfigValue::UINT(c.ml.dims as usize))
    } else {
        None
    }
}

/// Whether `key` is a setting that can be changed.
pub open spec fn editable(key: Seq<char>) -> bool {
    key == "write_chunk_size"@ || key == "read_chunk_size"@ || key == "dims"@
}

/// The largest value a setting can take.
pub open spec fn setting_max(key: Seq<char>) -> nat {
    if key == "dims"@ {
        u32::MAX as nat
    } else {
        usize::MAX as nat
    }
}

/// `c` with the setting `key` set to `n`.
pub open spec fn with_setting(c: CodexConfig, key: Seq<char>, n: nat) -> CodexConfig {
    if key == "write_chunk_size"@ {
        CodexConfig { settings: Settings { write_chunk_size: n as usize, ..c.settings }, ..c }
    } else if key == "read_chunk_size"@ {
        CodexConfig { settings: Settings { read_chunk_size: n as usize, ..c.settings }, ..c }
    } else {
        CodexConfig { ml: MLSettings { dims: n as u32, ..c.ml }, ..c }
    }
}

fn copy_string(s: &String) -> (r: String)
    ensures
        r == *s,
{
    s.clone()
}

/// The value stored under `key`; an unknown key is not found.
pub fn get_config(config: &CodexConfig, key: &str) -> (r: Result<ConfigValue, StorageError>)
    ensures
        match config_entry(*config, key@) {
            Some(v) => r == Ok::<ConfigValue, StorageError>(v),
            None => r matches Err(StorageError::NotFound(m)) && m@ == "key not found"@,
        },
{
    let k = chars_of(key);
    if chars_eq(&k, &chars_of("id")) {
        Ok(ConfigValue::Str(copy_string(&config.identity.id)))
    } else if chars_eq(&k, &chars_of("name")) {
        Ok(ConfigValue::Str(copy_string(&config.identity.name)))
    } else if chars_eq(&k, &chars_of("codex")) {
        Ok(ConfigValue::Str(copy_string(&config.version.codex)))
    } else if chars_eq(&k, &chars_of("storage")) {
        Ok(ConfigValue::Str(copy_string(&config.version.storage)))
    } else if chars_eq(&k, &chars_of("sqlitestore")) {
        Ok(ConfigValue::Str(copy_string(&config.version.sqlitestore)))
    } else if chars_eq(&k, &chars_of("created_at")) {
        Ok(ConfigValue::Str(copy_string(&config.version.created_at)))
    } else if chars_eq(&k, &chars_of("read_chunk_size")) {
        Ok(ConfigValue::UINT(config.settings.read_chunk_size))
    } else if chars_eq(&k, &chars_of("write_chunk_size")) {
        Ok(ConfigValue::UINT(config.settings.write_chunk_size))
    } else if chars_eq(&k, &chars_of("dims")) {
        Ok(ConfigValue::UINT(config.ml.dims as usize))
    } else {
        Err(StorageError::NotFound(string_from_chars(&chars_of("key not found"))))
    }
}

/// Sets the setting `key` to the number written in `value`. Only the block sizes and
/// the embedding dimensions can be set; a value that is not a number of the
/// setting's type is refused. On failure the configuration is unchanged.
pub fn change_config(config: &mut CodexConfig, key: &str, value: &str) -> (r: Result<(), StorageError>)
    ensures
        !editable(key@) ==> (r matches Err(StorageError::AssertionFail(m)) && m@
            == "key not found or is not editable"@ && *final(config) == *old(config)),
        editable(key@) ==> match parsed_unsigned(value@, setting_max(key@)) {
            Some(n) => r is Ok && *final(config) == with_setting(*old(config), key@, n),
            None => (r matches Err(StorageError::AssertionFail(m)) && m@ == key@ + " must be a valid number"@
                && *final(config) == *old(config)),
        },
{
    let k = chars_of(key);
    proof {
        reveal_strlit("write_chunk_size");
        reveal_strlit("read_chunk_size");
        reveal_strlit("dims");
        assert("write_chunk_size"@.len() == 16);
        assert("read_chunk_size"@.len() == 15);
        assert("dims"@.len() == 4);
    }
    if chars_eq(&k, &chars_of("write_chunk_size")) {
        match parse_unsigned(value, usize::MAX) {
            Some(n) => {
                config.settings.write_chunk_size = n;
                assert(*config == with_setting(*old(config), key@, n as nat));
                assert(editable(key@));
                assert(parsed_unsigned(value@, setting_max(key@)) == Some(n as nat));
                Ok(())
            },
            None => {
                assert(setting_max(key@) == setting_max("write_chunk_size"@));
                assert(parsed_unsigned(value@, setting_max(key@)) is None);
                Err(StorageError::AssertionFail(not_a_number("write_chunk_size")))
            },
        }
    } else if chars_eq(&k, &chars_of("read_chunk_size")) {
        match parse_unsigned(value, usize::MAX) {
            Some(n) => {
                config.settings.read_chunk_size = n;
                assert(*config == with_setting(*old(config), key@, n as nat));
                assert(editable(key@));
                assert(parsed_unsigned(value@, setting_max(key@)) == Some(n as nat));
                Ok(())
            },
            None => {
                assert(setting_max(key@) == setting_max("read_chunk_size"@));
                assert(parsed_unsigned(value@, setting_max(key@)) is None);
                Err(StorageError::AssertionFail(not_a_number("read_chunk_size")))
            },
        }
    } else if chars_eq(&k, &chars_of("dims")) {
        match parse_unsigned(value, 4294967295) {
            Some(n) => {
                config.ml.dims = n as u32;
                assert(*config == with_setting(*old(config), key@, n as nat));
                assert(editable(key@));
                assert(parsed_unsigned(value@, setting_max(key@)) == Some(n as nat));
                Ok(())
            },
            None => {
                assert(setting_max(key@) == setting_max("dims"@));
                assert(parsed_unsigned(value@, setting_max(key@)) is None);
                Err(StorageError::AssertionFail(not_a_number("dims")))
            },
        }
    } else {
        assert(!editable(key@));
        Err(StorageError::AssertionFail(string_from_chars(&chars_of("key not found or is not editable"))))
    }
}

/// The message for a setting given something that is not a number.
fn not_a_number(key: &str) -> (m: String)
    ensures
        m@ == key@ + " must be a valid number"@,
{
    let mut m = string_from_chars(&chars_of(key));
    m.push_str(" must be a valid number");
    m
}

/// What is read back after a successful change is the value that was written, and
/// every other entry is as before.
pub proof fn law_config_read_after_write(c: CodexConfig, key: Seq<char>, value: Seq<char>, other: Seq<char>)
    requires
        editable(key),
        parsed_unsigned(value, setting_max(key)) is Some,
        other != key,
    ensures
        config_entry(with_setting(c, key, parsed_unsigned(value, setting_max(key))->Some_0), key) == Some(
            ConfigValue::UINT(parsed_unsigned(value, setting_max(key))->Some_0 as usize),
        ),
        config_entry(with_setting(c, key, parsed_unsigned(value, setting_max(key))->Some_0), other)
            == config_entry(c, other),
{
    reveal_strlit("id");
    reveal_strlit("name");
    reveal_strlit("codex");
    reveal_strlit("storage");
    reveal_strlit("sqlitestore");
    reveal_strlit("created_at");
    reveal_strlit("read_chunk_size");
    reveal_strlit("write_chunk_size");
    reveal_strlit("dims");
    assert("id"@.len() == 2);
    assert("name"@.len() == 4);
    assert("codex"@.len() == 5);
    assert("storage"@.len() == 7);
    assert("sqlitestore"@.len() == 11);
    assert("created_at"@.len() == 10);
    assert("read_chunk_size"@.len() == 15);
    assert("write_chunk_size"@.len() == 16);
    assert("dims"@.len() == 4);
    assert("name"@[0] != "dims"@[0]);
}

/// A configuration describes a valid codex: its id is a UUID, its codex version is
/// known, and its storage version is known and supported by that codex version.
pub open spec fn config_valid(c: CodexConfig) -> bool {
    &&& uuid_text(c.identity.id@)
    &&& codex_version_named(c.version.codex@) is Some
    &&& storage_version_named(c.version.storage@) == Some(StorageVersion::V1)
}

/// Whether `config` describes a valid codex.
pub fn validate_codex_config(config: &CodexConfig) -> (b: bool)
    ensures
        b == config_valid(*config),
{
    if !uuid_parses(config.identity.id.as_str()) {
        return false;
    }
    let recorded = match CodexVersion::parse(config.version.codex.as_str()) {
        Some(v) => v,
        None => return false,
    };
    let storage_version = match StorageVersion::parse(config.version.storage.as_str()) {
        Some(v) => v,
        None => return false,
    };
    let supported = layout_for(recorded).supported_storage();
    let mut i: usize = 0;
    while i < supported.len()
        invariant
            i <= supported.len(),
            supported@ == seq![StorageVersion::V1],
            uuid_text(config.identity.id@),
            codex_version_named(config.version.codex@) is Some,
            storage_version_named(config.version.storage@) == Some(storage_version),
            forall|k: int| 0 <= k < i ==> supported@[k] != storage_version,
        decreases supported.len() - i,
    {
        if supported[i] == storage_version {
            return true;
        }
        i = i + 1;
    }
    assert(supported@[0] == StorageVersion::V1);
    false
}

} // verus!
