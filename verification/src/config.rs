//! The service's runtime configuration, read from its environment variables.
use vstd::prelude::*;

use crate::text::{
    decimal_text, is_blank, is_white_space, lemma_blank_iff_all_white_space,
    lemma_decimal_text_reads_back, parse_u16, parse_u64, trim, trim_spec,
    unsigned_literal_value,
};
use crate::{
    DEFAULT_ARTIFACT_BASE_URL_TEMPLATE, DEFAULT_BIND_ADDRESS, DEFAULT_HEX_CORE_BASE_URL,
    DEFAULT_HTTP_TIMEOUT_SECS, DEFAULT_PORT,
};

verus! {

/// The raw values of the environment variables that configure the service:
/// `HEX_CORE_BASE_URL`, `ARTIFACT_BASE_URL_TEMPLATE`, `HTTP_TIMEOUT_SECS`,
/// `BIND_ADDRESS` and `PORT`; `None` where a variable is unset or not Unicode.
pub struct RuntimeEnv {
    pub hex_core_base_url: Option<String>,
    pub artifact_base_url_template: Option<String>,
    pub http_timeout_secs: Option<String>,
    pub bind_address: Option<String>,
    pub port: Option<String>,
}

/// The service's settings.
pub struct RuntimeConfig {
    pub hex_core_base_url: String,
    pub artifact_base_url_template: String,
    pub http_timeout_secs: u64,
    pub bind_address: String,
    pub port: u16,
}

/// A string setting: the variable's value, unless it is unset or blank.
pub open spec fn string_setting(value: Option<String>) -> Option<Seq<char>> {
    match value {
        Some(v) => if trim_spec(v@).len() > 0 {
            Some(v@)
        } else {
            None
        },
        None => None,
    }
}

/// A numeric setting: the value of the variable's trimmed text, where that is
/// an unsigned decimal number no greater than `max`.
pub open spec fn number_setting(value: Option<String>, max: nat) -> Option<nat> {
    match value {
        Some(v) => match unsigned_literal_value(trim_spec(v@)) {
            Some(n) => if n <= max {
                Some(n)
            } else {
                None
            },
            None => None,
        },
        None => None,
    }
}

/// `setting`, or `default` where there is none.
pub open spec fn or_default<T>(setting: Option<T>, default: T) -> T {
    match setting {
        Some(v) => v,
        None => default,
    }
}

/// A string variable is taken as it is, surrounding white space included,
/// when it holds anything but white space; when it holds only white space it
/// is not taken, and the default applies.
pub proof fn lemma_string_setting_unless_blank(v: String)
    ensures
        (exists|i: int| 0 <= i < v@.len() && !is_white_space(#[trigger] v@[i])) ==> string_setting(Some(v))
            == Some(v@),
        (forall|i: int| 0 <= i < v@.len() ==> is_white_space(#[trigger] v@[i])) ==> string_setting(
            Some(v),
        ) is None,
{
    lemma_blank_iff_all_white_space(v@);
}

/// A variable set to the decimal form of a number is read as that number when
/// the number is no greater than `max`, and is not read otherwise; so `PORT`
/// set to the decimal form of any `u16` value, and `HTTP_TIMEOUT_SECS` set to
/// that of any `u64` value, give that value.
pub proof fn lemma_number_setting_reads_decimal(v: String, n: nat, max: nat)
    requires
        v@ == decimal_text(n),
    ensures
        n <= max ==> number_setting(Some(v), max) == Some(n),
        n > max ==> number_setting(Some(v), max) is None,
        n <= u16::MAX ==> or_default(number_setting(Some(v), u16::MAX as nat), DEFAULT_PORT as nat) == n,
        n <= u64::MAX ==> or_default(
            number_setting(Some(v), u64::MAX as nat),
            DEFAULT_HTTP_TIMEOUT_SECS as nat,
        ) == n,
{
    lemma_decimal_text_reads_back(n);
}

fn read_string(value: &Option<String>) -> (r: Option<String>)
    ensures
        match r {
            Some(s) => string_setting(*value) == Some(s@),
            None => string_setting(*value) is None,
        },
{
    match value {
        Some(v) => if is_blank(v.as_str()) {
            None
        } else {
            Some(v.clone())
        },
        None => None,
    }
}

fn read_u64(value: &Option<String>) -> (r: Option<u64>)
    ensures
        match r {
            Some(n) => number_setting(*value, u64::MAX as nat) == Some(n as nat),
            None => number_setting(*value, u64::MAX as nat) is None,
        },
{
    match value {
        Some(v) => {
            let t = trim(v.as_str());
            parse_u64(t.as_str())
        },
        None => None,
    }
}

fn read_u16(value: &Option<String>) -> (r: Option<u16>)
    ensures
        match r {
            Some(n) => number_setting(*value, u16::MAX as nat) == Some(n as nat),
            None => number_setting(*value, u16::MAX as nat) is None,
        },
{
    match value {
        Some(v) => {
            let t = trim(v.as_str());
            parse_u16(t.as_str())
        },
        None => None,
    }
}

impl RuntimeConfig {
    /// The settings that `env` gives, each falling back to its default where its
    /// variable is unset, blank or (for the numbers) not a number in range.
    pub fn from_env(env: &RuntimeEnv) -> (r: Self)
        ensures
            r.hex_core_base_url@ == or_default(
                string_setting(env.hex_core_base_url),
                DEFAULT_HEX_CORE_BASE_URL@,
            ),
            r.artifact_base_url_template@ == or_default(
                string_setting(env.artifact_base_url_template),
                DEFAULT_ARTIFACT_BASE_URL_TEMPLATE@,
            ),
            r.http_timeout_secs as nat == or_default(
                number_setting(env.http_timeout_secs, u64::MAX as nat),
                DEFAULT_HTTP_TIMEOUT_SECS as nat,
            ),
            r.bind_address@ == or_default(string_setting(env.bind_address), DEFAULT_BIND_ADDRESS@),
            r.port as nat == or_default(
                number_setting(env.port, u16::MAX as nat),
                DEFAULT_PORT as nat,
            ),
    {
        let hex_core_base_url = match read_string(&env.hex_core_base_url) {
            Some(v) => v,
            None => DEFAULT_HEX_CORE_BASE_URL.to_owned(),
        };
        let artifact_base_url_template = match read_string(&env.artifact_base_url_template) {
            Some(v) => v,
            None => DEFAULT_ARTIFACT_BASE_URL_TEMPLATE.to_owned(),
        };
        let http_timeout_secs = match read_u64(&env.http_timeout_secs) {
            Some(v) => v,
            None => DEFAULT_HTTP_TIMEOUT_SECS,
        };
        let bind_address = match read_string(&env.bind_address) {
            Some(v) => v,
            None => DEFAULT_BIND_ADDRESS.to_owned(),
        };
        let port = match read_u16(&env.port) {
            Some(v) => v,
            None => DEFAULT_PORT,
        };
        RuntimeConfig { hex_core_base_url, artifact_base_url_template, http_timeout_secs, bind_address, port }
    }
}

} // verus!
