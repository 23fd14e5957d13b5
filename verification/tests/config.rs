use aiwm_core::config::{ComfyConfig, Config, EnvOverrides, LlamaConfig, VramMode};
use aiwm_core::error::CoreError;

fn no_env() -> EnvOverrides {
    EnvOverrides {
        store_path: None,
        core_api_port: None,
        offline: None,
        log: None,
    }
}

/// Only `key` is set, to `val`.
fn one(key: &str, val: &str) -> EnvOverrides {
    let mut env = no_env();
    let v = Some(val.to_string());
    match key {
        "AIWM_STORE_PATH" => env.store_path = v,
        "AIWM_CORE_API_PORT" => env.core_api_port = v,
        "AIWM_OFFLINE" => env.offline = v,
        "AIWM_LOG" => env.log = v,
        _ => {}
    }
    env
}

#[test]
fn defaults_are_valid() {
    Config::default().validate().unwrap();
}

#[test]
fn env_overrides_win_over_file() {
    let mut cfg = Config::default();
    let env = EnvOverrides {
        store_path: Some("F:\\ai".to_string()),
        core_api_port: Some("40001".to_string()),
        offline: Some("TRUE".to_string()),
        log: Some("trace".to_string()),
    };

    cfg.apply_overrides(&env).unwrap();

    assert_eq!(cfg.store_path, "F:\\ai");
    assert_eq!(cfg.core_api_port, 40001);
    assert!(cfg.offline_mode);
    assert_eq!(cfg.log_filter, "trace");
}

#[test]
fn non_numeric_port_override_is_rejected() {
    let mut cfg = Config::default();
    let err = cfg
        .apply_overrides(&one("AIWM_CORE_API_PORT", "abc"))
        .unwrap_err();
    assert!(matches!(err, CoreError::Config(_)));
}

#[test]
fn non_boolean_offline_override_is_rejected() {
    let mut cfg = Config::default();
    assert!(cfg.apply_overrides(&one("AIWM_OFFLINE", "maybe")).is_err());
}

#[test]
fn offline_override_accepts_word_and_number_forms() {
    for truthy in ["1", "true", "TRUE", "yes", "on"] {
        let mut cfg = Config::default();
        cfg.apply_overrides(&one("AIWM_OFFLINE", truthy)).unwrap();
        assert!(cfg.offline_mode, "{truthy} should be true");
    }
    let mut cfg = Config {
        offline_mode: true,
        ..Config::default()
    };
    cfg.apply_overrides(&one("AIWM_OFFLINE", "off")).unwrap();
    assert!(!cfg.offline_mode);
}

#[test]
fn empty_env_values_do_not_clobber() {
    let mut cfg = Config::default();
    cfg.apply_overrides(&EnvOverrides {
        store_path: Some(String::new()),
        core_api_port: Some(String::new()),
        offline: Some(String::new()),
        log: Some(String::new()),
    })
    .unwrap();
    assert_eq!(cfg, Config::default());
}

#[test]
fn low_port_is_rejected() {
    let mut cfg = Config::default();
    cfg.apply_overrides(&no_env()).unwrap();
    cfg.core_api_port = 80;
    assert!(matches!(cfg.validate().unwrap_err(), CoreError::Config(_)));
}

#[test]
fn blank_log_filter_is_rejected() {
    let cfg = Config {
        log_filter: "   ".into(),
        ..Config::default()
    };
    assert!(cfg.validate().is_err());
}

#[test]
fn llama_defaults_map_to_runtime_options() {
    let opts = LlamaConfig::default().to_options();
    assert_eq!(opts.gpu_layers, 999);
    assert_eq!(opts.ctx_size, None);
    assert!(opts.flash_attention);
    assert!(opts.jinja, "jinja on by default (tool calls)");
    assert_eq!(opts.chat_template, None);
    assert_eq!(opts.load_timeout.as_secs(), 180);

    let opts = LlamaConfig {
        ctx_size: 4096,
        jinja: false,
        chat_template: "  qwen2.5-coder  ".into(),
        ..LlamaConfig::default()
    }
    .to_options();
    assert_eq!(opts.ctx_size, Some(4096));
    assert!(!opts.jinja);
    assert_eq!(opts.chat_template.as_deref(), Some("qwen2.5-coder"));
}

#[test]
fn comfyui_reserve_vram_and_extra_args_become_command_line_flags() {
    let cfg = ComfyConfig {
        reserve_vram_mb: 1536,
        extra_args: "  --fast   --use-sage-attention ".into(),
        ..ComfyConfig::default()
    };
    assert_eq!(
        cfg.to_options().extra_args,
        vec!["--reserve-vram", "1.50", "--fast", "--use-sage-attention"]
    );
    assert!(cfg.validate().is_ok());

    assert!(ComfyConfig {
        reserve_vram_mb: 99_999,
        ..ComfyConfig::default()
    }
    .validate()
    .is_err());

    assert!(!ComfyConfig::default()
        .to_options()
        .extra_args
        .iter()
        .any(|a| a == "--reserve-vram"));
}

#[test]
fn invalid_llama_and_budget_values_are_rejected() {
    let bad_ctx = Config {
        llama: LlamaConfig {
            ctx_size: 100,
            ..LlamaConfig::default()
        },
        ..Config::default()
    };
    assert!(bad_ctx.validate().is_err());

    let bad_timeout = Config {
        llama: LlamaConfig {
            load_timeout_secs: 5,
            ..LlamaConfig::default()
        },
        ..Config::default()
    };
    assert!(bad_timeout.validate().is_err());

    let bad_budget = Config {
        vram_budget_mb: 200,
        ..Config::default()
    };
    assert!(bad_budget.validate().is_err());
}

// --- further cases -------------------------------------------------------

#[test]
fn comfyui_vram_modes_parse_and_unknown_ones_are_refused() {
    let opts = ComfyConfig::default().to_options();
    assert_eq!(opts.vram_mode, VramMode::Auto);
    assert!(opts.extra_args.is_empty());
    let low = ComfyConfig {
        vram_mode: "lowvram".into(),
        ..ComfyConfig::default()
    };
    assert_eq!(low.to_options().vram_mode, VramMode::LowVram);
    assert!(low.validate().is_ok());
    let turbo = ComfyConfig {
        vram_mode: "turbo".into(),
        ..ComfyConfig::default()
    };
    assert_eq!(
        turbo.validate(),
        Err(CoreError::Config(
            "comfyui.vram_mode \"turbo\" must be auto / highvram / normalvram / lowvram / novram"
                .into()
        ))
    );
    assert_eq!(turbo.to_options().vram_mode, VramMode::Auto);
}

#[test]
fn validation_messages_name_the_rule() {
    let cfg = Config {
        core_api_port: 80,
        ..Config::default()
    };
    assert_eq!(
        cfg.validate(),
        Err(CoreError::Config(
            "core_api_port 80 is below the minimum 1024".into()
        ))
    );
    let cfg = Config {
        store_path: String::new(),
        ..Config::default()
    };
    assert_eq!(
        cfg.validate(),
        Err(CoreError::Config("store_path must not be empty".into()))
    );
    let big = ComfyConfig {
        reserve_vram_mb: 8193,
        ..ComfyConfig::default()
    };
    assert_eq!(
        big.validate(),
        Err(CoreError::Config(
            "comfyui.reserve_vram_mb 8193 is above the 8192 cap".into()
        ))
    );
}

#[test]
fn override_errors_quote_the_value() {
    let mut cfg = Config::default();
    assert_eq!(
        cfg.apply_overrides(&one("AIWM_CORE_API_PORT", "70000")),
        Err(CoreError::Config(
            "AIWM_CORE_API_PORT must be a port number, got \"70000\"".into()
        ))
    );
    assert_eq!(cfg.core_api_port, 48160);
    assert_eq!(
        cfg.apply_overrides(&one("AIWM_OFFLINE", "maybe")),
        Err(CoreError::Config(
            "AIWM_OFFLINE must be a boolean, got \"maybe\"".into()
        ))
    );
    // A port with a plus sign parses like `str::parse` does; a padded one does not.
    cfg.apply_overrides(&one("AIWM_CORE_API_PORT", "+5000")).unwrap();
    assert_eq!(cfg.core_api_port, 5000);
    assert!(cfg.apply_overrides(&one("AIWM_CORE_API_PORT", " 5000")).is_err());
    // A whitespace-only log filter does not clobber.
    cfg.apply_overrides(&one("AIWM_LOG", "   ")).unwrap();
    assert_eq!(cfg.log_filter, "info,aiwm_core=debug,aiwm_cored=info");
}

#[test]
fn comfyui_vram_mode_round_trips_and_is_validated() {
    let opts = ComfyConfig::default().to_options();
    assert_eq!(opts.vram_mode, VramMode::Auto);
    assert!(opts.extra_args.is_empty());

    let low = ComfyConfig { vram_mode: "lowvram".into(), ..ComfyConfig::default() };
    assert_eq!(low.to_options().vram_mode, VramMode::LowVram);
    assert!(low.validate().is_ok());

    assert!(ComfyConfig { vram_mode: "turbo".into(), ..ComfyConfig::default() }
        .validate()
        .is_err());

    let cfg = Config { comfyui: low, ..Config::default() };
    assert_eq!(cfg.comfyui.vram_mode, "lowvram");
    assert!(cfg.validate().is_ok());
}
