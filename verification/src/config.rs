//! User configuration: the `config.toml` settings, their validation, the
//! `AIWM_*` environment overrides, and the runtime launch options the
//! `[llama]` and `[comfyui]` tables turn into. Reading and writing the file
//! is the application's job; everything decided about its contents is here.
//!
//! Precedence: environment overrides > `config.toml` > built-in defaults.

use vstd::prelude::*;

use crate::error::CoreError;
use crate::text::{
    str_eq, debug_quoted, debug_string, eq_ignore_case, parse_u16, parse_u16_spec, split_words, trim,
    trim_str, views, words,
};

verus! {

/// Default model store.
pub const DEFAULT_STORE_PATH: &'static str = "E:\\AI\\models";

/// Loopback port for the core HTTP/WS API.
pub const DEFAULT_API_PORT: u16 = 48160;

pub const DEFAULT_LOG_FILTER: &'static str = "info,aiwm_core=debug,aiwm_cored=info";

/// Ports below this are rejected.
pub const MIN_API_PORT: u16 = 1024;

/// Smallest non-auto `vram_budget_mb` the scheduler may plan against.
pub const MIN_VRAM_BUDGET_MB: u64 = 1024;

/// Smallest non-auto `[llama] ctx_size`.
pub const MIN_CTX_SIZE: u32 = 512;

/// Bounds for `[llama] load_timeout_secs`.
pub const MIN_LOAD_TIMEOUT_SECS: u64 = 10;

pub const MAX_LOAD_TIMEOUT_SECS: u64 = 3600;

/// Upper bound for `[comfyui] reserve_vram_mb`.
pub const MAX_RESERVE_VRAM_MB: u64 = 8192;

/// Used when `vram_budget_mb` is `0` and no GPU is detected.
pub const FALLBACK_VRAM_BUDGET_MB: u64 = 8192;

/// ComfyUI's VRAM management mode (`--highvram`, `--lowvram`, ...).
#[derive(Debug, Clone, Copy, PartialEq, Eq)]
pub enum VramMode {
    /// Let ComfyUI decide.
    Auto,
    HighVram,
    NormalVram,
    LowVram,
    NoVram,
}

/// The mode a stored name stands for.
pub open spec fn vram_mode_of(s: Seq<char>) -> Option<VramMode> {
    if s == "auto"@ {
        Some(VramMode::Auto)
    } else if s == "highvram"@ {
        Some(VramMode::HighVram)
    } else if s == "normalvram"@ {
        Some(VramMode::NormalVram)
    } else if s == "lowvram"@ {
        Some(VramMode::LowVram)
    } else if s == "novram"@ {
        Some(VramMode::NoVram)
    } else {
        None
    }
}

impl VramMode {
    /// `auto` | `highvram` | `normalvram` | `lowvram` | `novram`.
    pub fn parse(s: &str) -> (r: Option<VramMode>)
        ensures
            r == vram_mode_of(s@),
    {
        if str_eq(s, "auto") {
            Some(VramMode::Auto)
        } else if str_eq(s, "highvram") {
            Some(VramMode::HighVram)
        } else if str_eq(s, "normalvram") {
            Some(VramMode::NormalVram)
        } else if str_eq(s, "lowvram") {
            Some(VramMode::LowVram)
        } else if str_eq(s, "novram") {
            Some(VramMode::NoVram)
        } else {
            None
        }
    }
}

impl Default for VramMode {
    fn default() -> (r: Self)
        ensures
            r == VramMode::Auto,
    {
        VramMode::Auto
    }
}

/// What the ComfyUI adapter launches with.
#[derive(Debug, Clone, PartialEq, Eq)]
pub struct ComfyOptions {
    pub vram_mode: VramMode,
    pub extra_args: Vec<String>,
}

/// `Duration::from_secs(secs)`, named: the same seconds give the same value.
pub uninterp spec fn duration_of_secs(secs: u64) -> std::time::Duration;

/// `std::time::Duration::from_secs`: a duration of `secs` whole seconds.
/// Claimed: the result is a function of `secs` alone.
#[verifier::external_body]
fn duration_from_secs(secs: u64) -> (r: std::time::Duration)
    ensures
        r == duration_of_secs(secs),
{
    std::time::Duration::from_secs(secs)
}

/// What the `llama-server` adapter launches with.
#[derive(Debug, PartialEq, Eq)]
pub struct LlamaServerOptions {
    /// `-ngl`.
    pub gpu_layers: u32,
    /// `-c`; `None` lets the adapter cap the trained context.
    pub ctx_size: Option<u32>,
    pub flash_attention: bool,
    pub jinja: bool,
    /// `--chat-template <name>`; `None` uses the GGUF's own.
    pub chat_template: Option<String>,
    pub load_timeout: std::time::Duration,
    pub extra_args: Vec<String>,
}

/// The `[comfyui]` table.
#[derive(Debug, Clone, PartialEq, Eq)]
pub struct ComfyConfig {
    /// `auto` | `highvram` | `normalvram` | `lowvram` | `novram`.
    pub vram_mode: String,
    /// `--reserve-vram <GB>`, given here in MB; `0` omits the flag.
    pub reserve_vram_mb: u64,
    /// Extra arguments appended to the command line, split on whitespace.
    pub extra_args: String,
}

impl Default for ComfyConfig {
    fn default() -> (r: Self)
        ensures
            r.vram_mode@ == "auto"@,
            r.reserve_vram_mb == 0,
            r.extra_args@ == Seq::<char>::empty(),
    {
        ComfyConfig {
            vram_mode: String::from_str("auto"),
            reserve_vram_mb: 0,
            extra_args: String::new(),
        }
    }
}

/// The launch arguments `[comfyui]` adds: the reserve flag (GB, two
/// decimals) when a reserve is set, then the extra words.
pub open spec fn comfy_args(c: ComfyConfig) -> Seq<Seq<char>> {
    let reserve = if c.reserve_vram_mb > 0 {
        seq!["--reserve-vram"@, crate::text::fixed_kib(c.reserve_vram_mb as nat, 2)]
    } else {
        Seq::empty()
    };
    reserve + words(c.extra_args@)
}

pub open spec fn comfy_problem(c: ComfyConfig) -> Option<Seq<char>> {
    if vram_mode_of(c.vram_mode@) is None {
        Some("comfyui.vram_mode "@ + debug_quoted(c.vram_mode@)
            + " must be auto / highvram / normalvram / lowvram / novram"@)
    } else if c.reserve_vram_mb > MAX_RESERVE_VRAM_MB {
        Some("comfyui.reserve_vram_mb "@ + crate::text::decimal(c.reserve_vram_mb as nat)
            + " is above the 8192 cap"@)
    } else {
        None
    }
}

impl ComfyConfig {
    /// Build the runtime options the adapter launches with; an unknown mode
    /// falls back to `Auto`.
    pub fn to_options(&self) -> (r: ComfyOptions)
        ensures
            r.vram_mode == (match vram_mode_of(self.vram_mode@) {
                Some(m) => m,
                None => VramMode::Auto,
            }),
            views(r.extra_args@) == comfy_args(*self),
    {
        let mut extra_args: Vec<String> = Vec::new();
        if self.reserve_vram_mb > 0 {
            extra_args.push(String::from_str("--reserve-vram"));
            let mut gb = String::new();
            crate::text::push_fixed_kib(&mut gb, self.reserve_vram_mb, 2);
            extra_args.push(gb);
        }
        let ghost head = extra_args@;
        let words_v = split_words(self.extra_args.as_str());
        let mut i: usize = 0;
        while i < words_v.len()
            invariant
                i <= words_v.len(),
                extra_args@ == head + words_v@.take(i as int),
            decreases words_v.len() - i,
        {
            extra_args.push(words_v[i].clone());
            assert(head + words_v@.take(i + 1) =~= (head + words_v@.take(i as int)).push(
                words_v@[i as int],
            ));
            i = i + 1;
        }
        assert(words_v@.take(words_v.len() as int) =~= words_v@);
        assert(views(extra_args@) =~= comfy_args(*self));
        let mode = match VramMode::parse(self.vram_mode.as_str()) {
            Some(m) => m,
            None => VramMode::Auto,
        };
        ComfyOptions { vram_mode: mode, extra_args }
    }

    /// Reject an unknown VRAM mode or an oversized reserve.
    pub fn validate(&self) -> (r: Result<(), CoreError>)
        ensures
            r is Ok <==> comfy_problem(*self) is None,
            r matches Err(e) ==> e.config_message() == comfy_problem(*self),
    {
        if VramMode::parse(self.vram_mode.as_str()).is_none() {
            let mut m = String::from_str("comfyui.vram_mode ");
            m.append(debug_string(self.vram_mode.as_str()).as_str());
            m.append(" must be auto / highvram / normalvram / lowvram / novram");
            return Err(CoreError::Config(m));
        }
        if self.reserve_vram_mb > MAX_RESERVE_VRAM_MB {
            let mut m = String::from_str("comfyui.reserve_vram_mb ");
            crate::text::push_decimal(&mut m, self.reserve_vram_mb);
            m.append(" is above the 8192 cap");
            return Err(CoreError::Config(m));
        }
        Ok(())
    }
}

/// The `[llama]` table.
#[derive(Debug, Clone, PartialEq, Eq)]
pub struct LlamaConfig {
    /// `-ngl` — layers offloaded to the GPU; `999` = all.
    pub gpu_layers: u32,
    /// `-c`; `0` = let the adapter cap the trained context.
    pub ctx_size: u32,
    pub flash_attention: bool,
    /// Pass `--jinja` (the GGUF's embedded chat template).
    pub jinja: bool,
    /// `--chat-template <name>`; empty = the GGUF's own.
    pub chat_template: String,
    /// Seconds a freshly started server has to answer `/health`.
    pub load_timeout_secs: u64,
}

impl Default for LlamaConfig {
    fn default() -> (r: Self)
        ensures
            r.gpu_layers == 999,
            r.ctx_size == 0,
            r.flash_attention,
            r.jinja,
            r.chat_template@ == Seq::<char>::empty(),
            r.load_timeout_secs == 180,
    {
        LlamaConfig {
            gpu_layers: 999,
            ctx_size: 0,
            flash_attention: true,
            jinja: true,
            chat_template: String::new(),
            load_timeout_secs: 180,
        }
    }
}

pub open spec fn llama_problem(c: LlamaConfig) -> Option<Seq<char>> {
    if c.ctx_size != 0 && c.ctx_size < MIN_CTX_SIZE {
        Some("llama.ctx_size must be 0 (auto) or at least 512"@)
    } else if !(MIN_LOAD_TIMEOUT_SECS <= c.load_timeout_secs <= MAX_LOAD_TIMEOUT_SECS) {
        Some("llama.load_timeout_secs must be between 10 and 3600"@)
    } else {
        None
    }
}

impl LlamaConfig {
    /// Build the runtime options the adapter launches with.
    pub fn to_options(&self) -> (r: LlamaServerOptions)
        ensures
            r.gpu_layers == self.gpu_layers,
            r.ctx_size == (if self.ctx_size > 0 {
                Some(self.ctx_size)
            } else {
                None
            }),
            r.flash_attention == self.flash_attention,
            r.jinja == self.jinja,
            trim(self.chat_template@).len() == 0 ==> r.chat_template is None,
            trim(self.chat_template@).len() > 0 ==> (r.chat_template matches Some(t) && t@ == trim(
                self.chat_template@,
            )),
            r.load_timeout == duration_of_secs(self.load_timeout_secs),
            r.extra_args@.len() == 0,
    {
        let template = trim_str(self.chat_template.as_str());
        let chat_template = if template.unicode_len() == 0 {
            None
        } else {
            Some(String::from_str(template))
        };
        LlamaServerOptions {
            gpu_layers: self.gpu_layers,
            ctx_size: if self.ctx_size > 0 {
                Some(self.ctx_size)
            } else {
                None
            },
            flash_attention: self.flash_attention,
            jinja: self.jinja,
            chat_template,
            load_timeout: duration_from_secs(self.load_timeout_secs),
            extra_args: Vec::new(),
        }
    }

    /// Reject a too-small non-auto context or an out-of-range timeout.
    pub fn validate(&self) -> (r: Result<(), CoreError>)
        ensures
            r is Ok <==> llama_problem(*self) is None,
            r matches Err(e) ==> e.config_message() == llama_problem(*self),
    {
        if self.ctx_size != 0 && self.ctx_size < MIN_CTX_SIZE {
            return Err(
                CoreError::Config(String::from_str("llama.ctx_size must be 0 (auto) or at least 512")),
            );
        }
        if !(MIN_LOAD_TIMEOUT_SECS <= self.load_timeout_secs && self.load_timeout_secs
            <= MAX_LOAD_TIMEOUT_SECS) {
            return Err(
                CoreError::Config(
                    String::from_str("llama.load_timeout_secs must be between 10 and 3600"),
                ),
            );
        }
        Ok(())
    }
}

/// The whole user configuration.
#[derive(Debug, Clone, PartialEq, Eq)]
pub struct Config {
    /// Canonical model store directory.
    pub store_path: String,
    /// Port for the loopback core API.
    pub core_api_port: u16,
    /// When true, no feature may reach the network.
    pub offline_mode: bool,
    /// `tracing` env-filter directive string.
    pub log_filter: String,
    /// VRAM budget (MB) for the scheduler; `0` = auto-detect.
    pub vram_budget_mb: u64,
    pub llama: LlamaConfig,
    pub comfyui: ComfyConfig,
}

impl Default for Config {
    fn default() -> (r: Self)
        ensures
            r.store_path@ == DEFAULT_STORE_PATH@,
            r.core_api_port == DEFAULT_API_PORT,
            !r.offline_mode,
            r.log_filter@ == DEFAULT_LOG_FILTER@,
            r.vram_budget_mb == 0,
            r.llama.gpu_layers == 999,
            r.llama.ctx_size == 0,
            r.llama.flash_attention,
            r.llama.jinja,
            r.llama.chat_template@ == Seq::<char>::empty(),
            r.llama.load_timeout_secs == 180,
            r.comfyui.vram_mode@ == "auto"@,
            r.comfyui.reserve_vram_mb == 0,
            r.comfyui.extra_args@ == Seq::<char>::empty(),
    {
        Config {
            store_path: String::from_str(DEFAULT_STORE_PATH),
            core_api_port: DEFAULT_API_PORT,
            offline_mode: false,
            log_filter: String::from_str(DEFAULT_LOG_FILTER),
            vram_budget_mb: 0,
            llama: LlamaConfig::default(),
            comfyui: ComfyConfig::default(),
        }
    }
}

/// The first rule `c` breaks, as its message.
pub open spec fn config_problem(c: Config) -> Option<Seq<char>> {
    if c.core_api_port < MIN_API_PORT {
        Some("core_api_port "@ + crate::text::decimal(c.core_api_port as nat)
            + " is below the minimum 1024"@)
    } else if c.store_path@.len() == 0 {
        Some("store_path must not be empty"@)
    } else if trim(c.log_filter@).len() == 0 {
        Some("log_filter must not be empty"@)
    } else if c.vram_budget_mb != 0 && c.vram_budget_mb < MIN_VRAM_BUDGET_MB {
        Some("vram_budget_mb must be 0 (auto) or at least 1024"@)
    } else if llama_problem(c.llama) is Some {
        llama_problem(c.llama)
    } else {
        comfy_problem(c.comfyui)
    }
}

/// The four `AIWM_*` overrides as looked up in the environment; `None`
/// where the variable is unset.
#[derive(Debug, Clone, PartialEq, Eq)]
pub struct EnvOverrides {
    /// `AIWM_STORE_PATH`.
    pub store_path: Option<String>,
    /// `AIWM_CORE_API_PORT`.
    pub core_api_port: Option<String>,
    /// `AIWM_OFFLINE`.
    pub offline: Option<String>,
    /// `AIWM_LOG`.
    pub log: Option<String>,
}

/// A set value with at least one character; an empty one is ignored.
pub open spec fn given(v: Option<String>) -> bool {
    v matches Some(s) && s@.len() > 0
}

/// `1 true yes on` / `0 false no off`, any ASCII case, surrounding
/// whitespace ignored.
pub open spec fn bool_word(s: Seq<char>) -> Option<bool> {
    let t = trim(s);
    if eq_ignore_case(t, "1"@) || eq_ignore_case(t, "true"@) || eq_ignore_case(t, "yes"@)
        || eq_ignore_case(t, "on"@) {
        Some(true)
    } else if eq_ignore_case(t, "0"@) || eq_ignore_case(t, "false"@) || eq_ignore_case(t, "no"@)
        || eq_ignore_case(t, "off"@) {
        Some(false)
    } else {
        None
    }
}

/// Read a boolean override.
pub fn parse_bool(v: &str) -> (r: Option<bool>)
    ensures
        r == bool_word(v@),
{
    let t = trim_str(v);
    if crate::text::eq_ci(t, "1") || crate::text::eq_ci(t, "true") || crate::text::eq_ci(t, "yes")
        || crate::text::eq_ci(t, "on") {
        Some(true)
    } else if crate::text::eq_ci(t, "0") || crate::text::eq_ci(t, "false") || crate::text::eq_ci(
        t,
        "no",
    ) || crate::text::eq_ci(t, "off") {
        Some(false)
    } else {
        None
    }
}

pub open spec fn port_error(v: Seq<char>) -> Seq<char> {
    "AIWM_CORE_API_PORT must be a port number, got "@ + debug_quoted(v)
}

pub open spec fn offline_error(v: Seq<char>) -> Seq<char> {
    "AIWM_OFFLINE must be a boolean, got "@ + debug_quoted(v)
}

impl Config {
    /// Validate every field, the `[llama]` and `[comfyui]` tables included.
    pub fn validate(&self) -> (r: Result<(), CoreError>)
        ensures
            r is Ok <==> config_problem(*self) is None,
            r matches Err(e) ==> e.config_message() == config_problem(*self),
    {
        if self.core_api_port < MIN_API_PORT {
            let mut m = String::from_str("core_api_port ");
            crate::text::push_decimal(&mut m, self.core_api_port as u64);
            m.append(" is below the minimum 1024");
            return Err(CoreError::Config(m));
        }
        if self.store_path.unicode_len() == 0 {
            return Err(CoreError::Config(String::from_str("store_path must not be empty")));
        }
        if trim_str(self.log_filter.as_str()).unicode_len() == 0 {
            return Err(CoreError::Config(String::from_str("log_filter must not be empty")));
        }
        if self.vram_budget_mb != 0 && self.vram_budget_mb < MIN_VRAM_BUDGET_MB {
            return Err(
                CoreError::Config(
                    String::from_str("vram_budget_mb must be 0 (auto) or at least 1024"),
                ),
            );
        }
        match self.llama.validate() {
            Err(e) => return Err(e),
            Ok(()) => {},
        }
        self.comfyui.validate()
    }

    /// Apply the `AIWM_*` overrides. An empty value is ignored; an
    /// unparseable port or boolean is an error (the fields before it have
    /// been applied by then); a log filter of only whitespace is ignored.
    pub fn apply_overrides(&mut self, env: &EnvOverrides) -> (r: Result<(), CoreError>)
        ensures
            final(self).store_path@ == (if given(env.store_path) {
                env.store_path->0@
            } else {
                old(self).store_path@
            }),
            final(self).vram_budget_mb == old(self).vram_budget_mb,
            final(self).llama == old(self).llama,
            final(self).comfyui == old(self).comfyui,
            given(env.core_api_port) && parse_u16_spec(env.core_api_port->0@) is None ==> (
            r matches Err(e) && e.config_message() == Some(port_error(env.core_api_port->0@))
                && final(self).core_api_port == old(self).core_api_port && final(self).offline_mode
                == old(self).offline_mode && final(self).log_filter == old(self).log_filter),
            !(given(env.core_api_port) && parse_u16_spec(env.core_api_port->0@) is None) ==> {
                &&& final(self).core_api_port == (if given(env.core_api_port) {
                    parse_u16_spec(env.core_api_port->0@)->0
                } else {
                    old(self).core_api_port
                })
                &&& given(env.offline) && bool_word(env.offline->0@) is None ==> (r matches Err(e)
                    && e.config_message() == Some(offline_error(env.offline->0@))
                    && final(self).offline_mode == old(self).offline_mode
                    && final(self).log_filter == old(self).log_filter)
                &&& !(given(env.offline) && bool_word(env.offline->0@) is None) ==> {
                    &&& r is Ok
                    &&& final(self).offline_mode == (if given(env.offline) {
                        bool_word(env.offline->0@)->0
                    } else {
                        old(self).offline_mode
                    })
                    &&& final(self).log_filter@ == (if env.log is Some && trim(env.log->0@).len()
                        > 0 {
                        env.log->0@
                    } else {
                        old(self).log_filter@
                    })
                }
            },
    {
        if let Some(v) = &env.store_path {
            if v.unicode_len() > 0 {
                self.store_path = v.clone();
            }
        }
        if let Some(v) = &env.core_api_port {
            if v.unicode_len() > 0 {
                match parse_u16(v.as_str()) {
                    Some(p) => {
                        self.core_api_port = p;
                    },
                    None => {
                        let mut m = String::from_str(
                            "AIWM_CORE_API_PORT must be a port number, got ",
                        );
                        m.append(debug_string(v.as_str()).as_str());
                        return Err(CoreError::Config(m));
                    },
                }
            }
        }
        if let Some(v) = &env.offline {
            if v.unicode_len() > 0 {
                match parse_bool(v.as_str()) {
                    Some(b) => {
                        self.offline_mode = b;
                    },
                    None => {
                        let mut m = String::from_str("AIWM_OFFLINE must be a boolean, got ");
                        m.append(debug_string(v.as_str()).as_str());
                        return Err(CoreError::Config(m));
                    },
                }
            }
        }
        if let Some(v) = &env.log {
            if trim_str(v.as_str()).unicode_len() > 0 {
                self.log_filter = v.clone();
            }
        }
        Ok(())
    }
}

} // verus!
