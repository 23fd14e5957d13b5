use aiwm_core::compat::{
    effective_ctx, estimate, verdict, verdict_from_total_mb, FitVerdict, ModelDims,
    DEFAULT_CHAT_CTX, KV_ROUGH_MB_PER_1K_CTX, RUNTIME_OVERHEAD_MB,
};

const MIB_I: u64 = 1024 * 1024;

fn qwen2_5_7b() -> ModelDims {
    ModelDims {
        size_bytes: 4400 * MIB_I,
        ctx_max: Some(32768),
        param_count: Some(7_615_616_512),
        n_layers: Some(28),
        n_embd: Some(3584),
        n_heads: Some(28),
        n_kv_heads: Some(4),
    }
}

fn mistral_small_3_2_24b_iq3_m() -> ModelDims {
    ModelDims {
        size_bytes: 10_650_964_832,
        ctx_max: Some(131_072),
        param_count: Some(23_572_403_200),
        n_layers: Some(40),
        n_embd: Some(5120),
        n_heads: Some(32),
        n_kv_heads: Some(8),
    }
}

#[test]
fn real_mistral_load_pins_the_recalibrated_overhead_and_stays_above_measured_actual() {
    let ctx = effective_ctx(mistral_small_3_2_24b_iq3_m().ctx_max);
    let est = estimate(&mistral_small_3_2_24b_iq3_m(), ctx);

    assert!(!est.kv_is_rough);
    assert_eq!(est.weights_mb, 10_157);
    assert_eq!(est.kv_cache_mb, 1_600);
    assert_eq!(est.overhead_mb, RUNTIME_OVERHEAD_MB);
    assert_eq!(est.total_mb, 10_157 + 1_600 + RUNTIME_OVERHEAD_MB);

    const REAL_MEASURED_ACTUAL_MB: u64 = 11_690;
    assert!(
        est.total_mb >= REAL_MEASURED_ACTUAL_MB,
        "estimate {} must not under-predict the real measured {REAL_MEASURED_ACTUAL_MB} MB",
        est.total_mb
    );
    let overshoot = est.total_mb - REAL_MEASURED_ACTUAL_MB;
    assert!(
        overshoot < 500,
        "expected the recalibrated overhead to overshoot by well under the old 717 MB gap, got {overshoot}"
    );
}

#[test]
fn qwen2_5_7b_kv_cache_is_about_450_mb_at_8k() {
    let est = estimate(&qwen2_5_7b(), 8192);
    assert!(!est.kv_is_rough);
    assert_eq!(est.kv_cache_mb, 448);
    assert_eq!(est.weights_mb, 4400);
    assert_eq!(est.overhead_mb, RUNTIME_OVERHEAD_MB);
    assert_eq!(est.total_mb, 4400 + 448 + RUNTIME_OVERHEAD_MB);
    assert_eq!(est.ctx, 8192);
}

#[test]
fn llama3_8b_gqa_kv_is_about_1gb_at_8k() {
    let dims = ModelDims {
        size_bytes: 4900 * MIB_I,
        ctx_max: Some(8192),
        n_layers: Some(32),
        n_embd: Some(4096),
        n_heads: Some(32),
        n_kv_heads: Some(8),
        ..ModelDims::default()
    };
    let est = estimate(&dims, 8192);
    assert_eq!(est.kv_cache_mb, 1024);
    assert!(!est.kv_is_rough);
}

#[test]
fn kv_cache_scales_linearly_with_context() {
    let at_8k = estimate(&qwen2_5_7b(), 8192).kv_cache_mb;
    let at_16k = estimate(&qwen2_5_7b(), 16384).kv_cache_mb;
    assert_eq!(at_16k, at_8k * 2);
}

#[test]
fn missing_kv_heads_falls_back_to_head_count() {
    let mut dims = qwen2_5_7b();
    dims.n_kv_heads = None;
    let est = estimate(&dims, 8192);
    assert_eq!(est.kv_cache_mb, 3136);
    assert!(!est.kv_is_rough);
}

#[test]
fn missing_dims_use_the_rough_heuristic() {
    let dims = ModelDims {
        size_bytes: 4000 * MIB_I,
        ctx_max: Some(8192),
        ..ModelDims::default()
    };
    let est = estimate(&dims, 8192);
    assert!(est.kv_is_rough);
    assert_eq!(est.kv_cache_mb, 8 * KV_ROUGH_MB_PER_1K_CTX);
    assert_eq!(
        est.total_mb,
        4000 + 8 * KV_ROUGH_MB_PER_1K_CTX + RUNTIME_OVERHEAD_MB
    );
}

#[test]
fn zero_heads_in_the_header_fall_back_to_rough() {
    let dims = ModelDims {
        size_bytes: 100 * MIB_I,
        n_layers: Some(32),
        n_embd: Some(4096),
        n_heads: Some(0),
        ..ModelDims::default()
    };
    assert!(estimate(&dims, 4096).kv_is_rough);
}

#[test]
fn effective_ctx_caps_at_the_default() {
    assert_eq!(effective_ctx(Some(131072)), DEFAULT_CHAT_CTX);
    assert_eq!(effective_ctx(Some(4096)), 4096);
    assert_eq!(effective_ctx(Some(0)), DEFAULT_CHAT_CTX);
    assert_eq!(effective_ctx(None), DEFAULT_CHAT_CTX);
}

#[test]
fn describe_reads_plainly() {
    let text = estimate(&qwen2_5_7b(), 8192).describe();
    assert!(text.contains("weights"), "{text}");
    assert!(text.contains("KV cache"), "{text}");
    assert!(text.contains("8K ctx"), "{text}");
    assert!(text.contains("overhead"), "{text}");
}

#[test]
fn rough_estimate_is_marked_in_the_description() {
    let dims = ModelDims {
        size_bytes: 4000 * MIB_I,
        ..ModelDims::default()
    };
    assert!(estimate(&dims, 8192).describe().contains("KV cache ~"));
}

fn weights(mb: u64) -> ModelDims {
    ModelDims {
        size_bytes: mb * MIB_I,
        ..ModelDims::default()
    }
}

#[test]
fn verdict_is_green_with_comfortable_head_room() {
    assert_eq!(
        verdict(&weights(6_000), 8192, 16_000, 32_000),
        FitVerdict::Green
    );
}

#[test]
fn verdict_is_yellow_when_it_fits_but_is_tight() {
    let v = verdict(&weights(12_000), 8192, 15_000, 32_000);
    match v {
        FitVerdict::Yellow { reason } => assert!(reason.contains("head-room"), "{reason}"),
        other => panic!("expected tight yellow, got {other:?}"),
    }
}

#[test]
fn verdict_is_yellow_when_over_budget_but_offloadable() {
    let v = verdict(&weights(20_000), 8192, 16_000, 32_000);
    match v {
        FitVerdict::Yellow { reason } => assert!(reason.contains("system RAM"), "{reason}"),
        other => panic!("expected offload yellow, got {other:?}"),
    }
}

#[test]
fn verdict_is_red_when_over_budget_and_ram_cannot_offload() {
    let v = verdict(&weights(20_000), 8192, 16_000, 4_000);
    assert!(matches!(v, FitVerdict::Red { .. }), "{v:?}");
}

#[test]
fn verdict_is_unknown_without_a_budget_or_a_size() {
    assert_eq!(
        verdict(&weights(8_000), 8192, 0, 32_000),
        FitVerdict::Unknown
    );
    assert_eq!(
        verdict(&ModelDims::default(), 8192, 16_000, 32_000),
        FitVerdict::Unknown
    );
}

#[test]
fn verdict_from_total_mb_matches_verdict_on_the_same_total() {
    let total = estimate(&weights(6_000), 8192).total_mb;
    assert_eq!(
        verdict_from_total_mb(total, 16_000, 32_000),
        FitVerdict::Green
    );
    assert_eq!(
        verdict(&weights(6_000), 8192, 16_000, 32_000),
        FitVerdict::Green
    );
}

#[test]
fn verdict_from_total_mb_is_unknown_without_a_budget_or_a_total() {
    assert_eq!(verdict_from_total_mb(8_000, 0, 32_000), FitVerdict::Unknown);
    assert_eq!(
        verdict_from_total_mb(0, 16_000, 32_000),
        FitVerdict::Unknown
    );
}

#[test]
fn verdict_from_total_mb_is_red_when_it_cannot_offload() {
    let v = verdict_from_total_mb(20_000, 16_000, 1_000);
    assert!(matches!(v, FitVerdict::Red { .. }), "{v:?}");
}

// --- exact texts ---------------------------------------------------------

#[test]
fn describe_gives_the_exact_breakdown() {
    assert_eq!(
        estimate(&qwen2_5_7b(), 8192).describe(),
        "~5.1 GB (weights 4.3 GB + KV cache 0.4 GB @ 8K ctx + 0.3 GB overhead)"
    );
    assert_eq!(
        estimate(&weights(4000), 1500).describe(),
        "~4.6 GB (weights 3.9 GB + KV cache ~0.3 GB @ 1500 ctx + 0.3 GB overhead)"
    );
}

#[test]
fn verdict_reasons_name_the_numbers() {
    assert_eq!(
        verdict_from_total_mb(14_000, 15_000, 32_000),
        FitVerdict::Yellow {
            reason: "needs ~13.7 GB of your ~14.6 GB VRAM budget \u{2014} little head-room for a \
                     longer context or a second resident model"
                .into()
        }
    );
    assert_eq!(
        verdict_from_total_mb(22_000, 16_000, 32_000),
        FitVerdict::Yellow {
            reason: "needs ~21.5 GB, over your ~15.6 GB VRAM budget \u{2014} about 5.9 GB would run \
                     in system RAM (much slower)"
                .into()
        }
    );
    assert_eq!(
        verdict_from_total_mb(20_000, 16_000, 4_000),
        FitVerdict::Red {
            reason: "needs ~19.5 GB, over your ~15.6 GB VRAM budget, and only ~3.9 GB RAM is free \
                     to offload the rest"
                .into()
        }
    );
}

#[test]
fn the_tight_line_sits_at_85_percent() {
    // 85 % of 10 000 is exactly 8 500: at it is still green, one over is tight.
    assert_eq!(verdict_from_total_mb(8_500, 10_000, 0), FitVerdict::Green);
    assert!(matches!(
        verdict_from_total_mb(8_501, 10_000, 0),
        FitVerdict::Yellow { .. }
    ));
    // Exactly the budget still fits (tight); one over needs RAM.
    assert!(matches!(
        verdict_from_total_mb(10_000, 10_000, 0),
        FitVerdict::Yellow { .. }
    ));
    assert!(matches!(
        verdict_from_total_mb(10_001, 10_000, 4_096),
        FitVerdict::Red { .. }
    ));
    assert!(matches!(
        verdict_from_total_mb(10_001, 10_000, 4_097),
        FitVerdict::Yellow { .. }
    ));
}

#[test]
fn a_context_of_zero_is_estimated_as_one_token() {
    let est = estimate(&weights(1_000), 0);
    assert_eq!(est.ctx, 1);
    assert_eq!(est.kv_cache_mb, KV_ROUGH_MB_PER_1K_CTX);
}

#[test]
fn gigabytes_round_half_to_even() {
    // 256 MB is exactly 0.25 GB: printed as 0.2, like `{:.1}` does.
    let est = estimate(
        &ModelDims {
            size_bytes: 256 * MIB_I,
            ..ModelDims::default()
        },
        1024,
    );
    assert!(est.describe().contains("weights 0.2 GB"), "{}", est.describe());
}
